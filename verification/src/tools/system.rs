//! The five system capability tools (read / write / edit / delete / execute):
//! the pure parts — recognising deleting commands, clipping command output, and
//! deciding which guard steps a command must pass before it runs.
use vstd::prelude::*;
use crate::intent::IntentVerdict;
use crate::text::{to_owned_string, find_chars, find_from, lemma_find_from, 
    chars_of, chars_eq, contains_chars, contains_seq, copy_range, lowercase, lowercase_chars,
    is_white, char_is_whitespace, push_chars, push_str, string_from_chars,
};

verus! {

broadcast use vstd::string::group_string_axioms;

/// Characters that separate the words of a command.
pub open spec fn command_separator(c: char) -> bool {
    is_white(c) || c == '|' || c == '&' || c == ';' || c == '(' || c == ')' || c == '`' || c
        == '<' || c == '>' || c == '"' || c == '\'' || c == '$'
}

/// The pieces of `s` between separators, as std's `str::split` gives them
/// (empty pieces included; n separators give n + 1 pieces).
pub open spec fn split_pieces(s: Seq<char>) -> Seq<Seq<char>>
    decreases s.len(),
{
    if s.len() == 0 {
        seq![Seq::<char>::empty()]
    } else {
        let r = split_pieces(s.drop_last());
        if command_separator(s.last()) {
            r.push(Seq::<char>::empty())
        } else {
            r.update(r.len() - 1, r.last().push(s.last()))
        }
    }
}

pub proof fn lemma_split_pieces_len(s: Seq<char>)
    ensures
        split_pieces(s).len() >= 1,
    decreases s.len(),
{
    if s.len() > 0 {
        lemma_split_pieces_len(s.drop_last());
    }
}

/// What follows the last '/' of `t` (all of `t` when it has none).
pub open spec fn after_last_slash(t: Seq<char>) -> Seq<char>
    decreases t.len(),
{
    if t.len() == 0 {
        t
    } else if t.last() == '/' {
        Seq::empty()
    } else {
        after_last_slash(t.drop_last()).push(t.last())
    }
}

/// The program names that delete files.
pub open spec fn delete_program(b: Seq<char>) -> bool {
    b == "rm"@ || b == "rmdir"@ || b == "unlink"@ || b == "shred"@
}

/// Whether a command word, lower-cased and stripped of any directory, names a deleting program.
pub open spec fn deleting_word(w: Seq<char>) -> bool {
    delete_program(after_last_slash(lowercase(w)))
}

/// Whether a command deletes: it holds "-delete" (as `find -delete`), or one of
/// its words is rm / rmdir / unlink / shred, in any case, possibly with a path.
pub open spec fn deletes(command: Seq<char>) -> bool {
    contains_seq(command, "-delete"@) || exists|i: int|
        0 <= i < split_pieces(command).len() && deleting_word(#[trigger] split_pieces(command)[i])
}

fn is_command_separator(c: char) -> (r: bool)
    ensures
        r == command_separator(c),
{
    char_is_whitespace(c) || c == '|' || c == '&' || c == ';' || c == '(' || c == ')' || c == '`'
        || c == '<' || c == '>' || c == '"' || c == '\'' || c == '$'
}

fn after_last_slash_exec(t: &Vec<char>) -> (r: Vec<char>)
    ensures
        r@ == after_last_slash(t@),
{
    let mut i: usize = t.len();
    assert(t@.take(i as int) =~= t@);
    assert(t@.skip(i as int) =~= Seq::<char>::empty());
    assert(after_last_slash(t@) + Seq::<char>::empty() =~= after_last_slash(t@));
    while i > 0 && t[i - 1] != '/'
        invariant
            i <= t.len(),
            after_last_slash(t@) == after_last_slash(t@.take(i as int)) + t@.skip(i as int),
        decreases i,
    {
        proof {
            let p = t@.take(i as int);
            assert(p.drop_last() =~= t@.take(i - 1));
            assert(t@.skip(i - 1) =~= seq![t@[i - 1]] + t@.skip(i as int));
            assert(after_last_slash(p) == after_last_slash(t@.take(i - 1)).push(t@[i - 1]));
            assert(after_last_slash(t@.take(i - 1)).push(t@[i - 1]) + t@.skip(i as int)
                =~= after_last_slash(t@.take(i - 1)) + t@.skip(i - 1));
        }
        i = i - 1;
    }
    proof {
        let p = t@.take(i as int);
        if i > 0 {
            assert(p.last() == '/');
        } else {
            assert(p =~= Seq::<char>::empty());
        }
        assert(after_last_slash(p) =~= Seq::<char>::empty());
        assert(Seq::<char>::empty() + t@.skip(i as int) =~= t@.skip(i as int));
    }
    copy_range(t, i, t.len())
}

fn word_deletes(w: &Vec<char>) -> (r: bool)
    ensures
        r == deleting_word(w@),
{
    let lower = lowercase_chars(w);
    let base = after_last_slash_exec(&lower);
    chars_eq(&base, &chars_of("rm")) || chars_eq(&base, &chars_of("rmdir")) || chars_eq(
        &base,
        &chars_of("unlink"),
    ) || chars_eq(&base, &chars_of("shred"))
}

/// Recognises deleting commands, so that `sys_execute` cannot slip past the delete guard.
pub fn command_contains_delete(command: &str) -> (r: bool)
    ensures
        r == deletes(command@),
{
    let s = chars_of(command);
    if contains_chars(&s, &chars_of("-delete")) {
        return true;
    }
    let mut cur: Vec<char> = Vec::new();
    let mut i: usize = 0;
    proof {
        assert(s@.take(0) =~= Seq::<char>::empty());
    }
    while i < s.len()
        invariant
            s@ == command@,
            !contains_seq(command@, "-delete"@),
            i <= s.len(),
            split_pieces(s@.take(i as int)).len() >= 1,
            cur@ == split_pieces(s@.take(i as int)).last(),
            forall|j: int|
                0 <= j < split_pieces(s@.take(i as int)).len() - 1 ==> !deleting_word(
                    #[trigger] split_pieces(s@.take(i as int))[j],
                ),
        decreases s.len() - i,
    {
        let c = s[i];
        let ghost p = split_pieces(s@.take(i as int));
        proof {
            assert(s@.take(i + 1).drop_last() =~= s@.take(i as int));
            assert(s@.take(i + 1).last() == c);
        }
        if is_command_separator(c) {
            if word_deletes(&cur) {
                proof {
                    let q = split_pieces(s@.take(i + 1));
                    assert(q[p.len() - 1] == cur@);
                    let k = p.len() - 1;
                    assert(q.len() == p.len() + 1);
                    lemma_pieces_stable(s@, i + 1, s@.len() as int, k);
                    assert(s@.take(s@.len() as int) =~= s@);
                    assert(split_pieces(s@)[k] == cur@);
                }
                return true;
            }
            cur = Vec::new();
            proof {
                let q = split_pieces(s@.take(i + 1));
                assert(q == p.push(Seq::<char>::empty()));
                assert forall|j: int| 0 <= j < q.len() - 1 implies !deleting_word(#[trigger] q[j]) by {
                    assert(q[j] == p[j]);
                }
            }
        } else {
            cur.push(c);
            proof {
                let q = split_pieces(s@.take(i + 1));
                assert(q == p.update(p.len() - 1, p.last().push(c)));
                assert forall|j: int| 0 <= j < q.len() - 1 implies !deleting_word(#[trigger] q[j]) by {
                    assert(q[j] == p[j]);
                }
            }
        }
        i = i + 1;
    }
    assert(s@.take(i as int) =~= s@);
    let last = word_deletes(&cur);
    proof {
        let p = split_pieces(s@);
        if !last {
            assert forall|j: int| 0 <= j < p.len() implies !deleting_word(#[trigger] p[j]) by {
                if j == p.len() - 1 {
                    assert(p[j] == cur@);
                }
            }
        } else {
            assert(deleting_word(p[p.len() - 1]));
        }
    }
    last
}

/// Pieces that a prefix has closed (all but its last) stay as they are when the prefix grows.
proof fn lemma_pieces_stable(s: Seq<char>, m: int, n: int, k: int)
    requires
        0 <= m <= n <= s.len(),
        0 <= k < split_pieces(s.take(m)).len() - 1,
    ensures
        split_pieces(s.take(n)).len() >= split_pieces(s.take(m)).len(),
        split_pieces(s.take(n))[k] == split_pieces(s.take(m))[k],
    decreases n - m,
{
    if n > m {
        lemma_pieces_stable(s, m, n - 1, k);
        assert(s.take(n).drop_last() =~= s.take(n - 1));
        lemma_split_pieces_len(s.take(n - 1));
    }
}


/// Command output longer than this many characters is clipped.
pub const MAX_OUTPUT_CHARS: usize = 32 * 1024;

/// The marker between the kept head and tail of clipped output.
pub open spec fn clip_marker() -> Seq<char> {
    "\n...[输出过长已截断]...\n"@
}

/// Output within the limit as is; longer output as its first and last
/// `MAX_OUTPUT_CHARS / 2` characters around a marker.
pub open spec fn clipped(s: Seq<char>) -> Seq<char> {
    let half = (MAX_OUTPUT_CHARS / 2) as int;
    if s.len() <= MAX_OUTPUT_CHARS {
        s
    } else {
        s.take(half) + clip_marker() + s.skip(s.len() - half)
    }
}

/// Clips command output to a size the agent can take in.
pub fn clip_output(s: &str) -> (r: String)
    ensures
        r@ == clipped(s@),
{
    let v = chars_of(s);
    if v.len() <= MAX_OUTPUT_CHARS {
        return string_from_chars(v.as_slice());
    }
    let half = MAX_OUTPUT_CHARS / 2;
    let mut out = copy_range(&v, 0, half);
    push_str(&mut out, "\n...[输出过长已截断]...\n");
    let tail = copy_range(&v, v.len() - half, v.len());
    push_chars(&mut out, &tail);
    assert(v@.subrange(0, half as int) =~= v@.take(half as int));
    assert(v@.subrange(v.len() - half, v.len() as int) =~= v@.skip(v.len() - half));
    string_from_chars(out.as_slice())
}

/// What the intent stage knows about a command before it runs.
pub enum ExecIntent {
    /// Intent verdicts are switched off in the settings.
    Disabled,
    /// The judge gave a verdict.
    Verdict(IntentVerdict),
    /// The judge could not be used (no model, a failed call, a timeout); the error text.
    Unavailable(String),
}

/// A check that a command must pass, in order, before it runs.
pub enum ExecCheck {
    /// Ask a person for the execute capability, whatever the approval policy;
    /// `refusal` is the reply when they do not approve.
    Approve { summary: String, refusal: String },
    /// Pass the full guard (switch, then approval policy) for a capability.
    Authorize { capability: String, summary: String },
}

pub enum ExecCheckView {
    Approve(Seq<char>, Seq<char>),
    Authorize(Seq<char>, Seq<char>),
}

impl View for ExecCheck {
    type V = ExecCheckView;

    open spec fn view(&self) -> ExecCheckView {
        match self {
            ExecCheck::Approve { summary, refusal } => ExecCheckView::Approve(summary@, refusal@),
            ExecCheck::Authorize { capability, summary } => ExecCheckView::Authorize(
                capability@,
                summary@,
            ),
        }
    }
}

pub open spec fn dangerous_check(reason: Seq<char>, command: Seq<char>) -> ExecCheckView {
    ExecCheckView::Approve(
        "破坏性意图需审批："@ + reason + "\n命令："@ + command,
        "操作被拒绝：用户未批准该破坏性命令"@,
    )
}

pub open spec fn capability_check(cap: Seq<char>, reason: Seq<char>, command: Seq<char>) -> ExecCheckView {
    ExecCheckView::Authorize(cap, "意图判定触及 "@ + cap + " 能力（"@ + reason + "）："@ + command)
}

pub open spec fn delete_check(command: Seq<char>) -> ExecCheckView {
    ExecCheckView::Authorize("delete"@, "命令含删除操作: "@ + command)
}

pub open spec fn unavailable_check(err: Seq<char>, command: Seq<char>) -> ExecCheckView {
    ExecCheckView::Approve(
        "意图判定不可用（"@ + err + "），请人工确认命令："@ + command,
        "操作被拒绝：用户未批准该命令"@,
    )
}

/// The steps a command goes through before it runs. When the judge answered, a
/// destructive command first waits for a person's consent, and then each capability
/// it touches passes its own guard. When the judge could not be used, a deleting
/// command passes the delete guard and any other waits for a person's consent.
/// When intent judging is switched off, a deleting command passes the delete guard
/// and any other runs at once.
pub open spec fn execute_checks_spec(intent: ExecIntent, command: Seq<char>) -> Seq<ExecCheckView> {
    match intent {
        ExecIntent::Verdict(v) => {
            let first = if v.dangerous {
                seq![dangerous_check(v.reason@, command)]
            } else {
                Seq::empty()
            };
            first + v.capabilities@.map_values(
                |c: String| capability_check(c@, v.reason@, command),
            )
        },
        ExecIntent::Unavailable(e) => if deletes(command) {
            seq![delete_check(command)]
        } else {
            seq![unavailable_check(e@, command)]
        },
        ExecIntent::Disabled => if deletes(command) {
            seq![delete_check(command)]
        } else {
            Seq::empty()
        },
    }
}

/// The steps a command must pass before it runs.
pub fn execute_checks(intent: &ExecIntent, command: &str) -> (r: Vec<ExecCheck>)
    ensures
        r@.map_values(|c: ExecCheck| c@) == execute_checks_spec(*intent, command@),
{
    let mut r: Vec<ExecCheck> = Vec::new();
    match intent {
        ExecIntent::Verdict(v) => {
            if v.dangerous {
                let mut s: Vec<char> = Vec::new();
                push_str(&mut s, "破坏性意图需审批：");
                push_chars(&mut s, &chars_of(v.reason.as_str()));
                push_str(&mut s, "\n命令：");
                push_chars(&mut s, &chars_of(command));
                r.push(
                    ExecCheck::Approve {
                        summary: string_from_chars(s.as_slice()),
                        refusal: to_owned_string("操作被拒绝：用户未批准该破坏性命令"),
                    },
                );
            }
            let ghost first = r@.map_values(|c: ExecCheck| c@);
            let ghost caps = v.capabilities@;
            let mut i: usize = 0;
            while i < v.capabilities.len()
                invariant
                    i <= v.capabilities.len(),
                    caps == v.capabilities@,
                    r@.map_values(|c: ExecCheck| c@) == first + caps.take(i as int).map_values(
                        |c: String| capability_check(c@, v.reason@, command@),
                    ),
                decreases v.capabilities.len() - i,
            {
                let cap = &v.capabilities[i];
                let mut s: Vec<char> = Vec::new();
                push_str(&mut s, "意图判定触及 ");
                push_chars(&mut s, &chars_of(cap.as_str()));
                push_str(&mut s, " 能力（");
                push_chars(&mut s, &chars_of(v.reason.as_str()));
                push_str(&mut s, "）：");
                push_chars(&mut s, &chars_of(command));
                let ghost before = r@.map_values(|c: ExecCheck| c@);
                r.push(
                    ExecCheck::Authorize {
                        capability: cap.clone(),
                        summary: string_from_chars(s.as_slice()),
                    },
                );
                assert(r@.map_values(|c: ExecCheck| c@) =~= before.push(
                    capability_check(caps[i as int]@, v.reason@, command@),
                ));
                assert(caps.take(i + 1).map_values(
                    |c: String| capability_check(c@, v.reason@, command@),
                ) =~= caps.take(i as int).map_values(
                    |c: String| capability_check(c@, v.reason@, command@),
                ).push(capability_check(caps[i as int]@, v.reason@, command@)));
                i = i + 1;
            }
            assert(caps.take(i as int) =~= caps);
        },
        ExecIntent::Unavailable(e) => {
            if command_contains_delete(command) {
                let mut s: Vec<char> = Vec::new();
                push_str(&mut s, "命令含删除操作: ");
                push_chars(&mut s, &chars_of(command));
                r.push(
                    ExecCheck::Authorize {
                        capability: to_owned_string("delete"),
                        summary: string_from_chars(s.as_slice()),
                    },
                );
            } else {
                let mut s: Vec<char> = Vec::new();
                push_str(&mut s, "意图判定不可用（");
                push_chars(&mut s, &chars_of(e.as_str()));
                push_str(&mut s, "），请人工确认命令：");
                push_chars(&mut s, &chars_of(command));
                r.push(
                    ExecCheck::Approve {
                        summary: string_from_chars(s.as_slice()),
                        refusal: to_owned_string("操作被拒绝：用户未批准该命令"),
                    },
                );
            }
        },
        ExecIntent::Disabled => {
            if command_contains_delete(command) {
                let mut s: Vec<char> = Vec::new();
                push_str(&mut s, "命令含删除操作: ");
                push_chars(&mut s, &chars_of(command));
                r.push(
                    ExecCheck::Authorize {
                        capability: to_owned_string("delete"),
                        summary: string_from_chars(s.as_slice()),
                    },
                );
            }
        },
    }
    assert(r@.map_values(|c: ExecCheck| c@) =~= execute_checks_spec(*intent, command@));
    r
}

/// Law of command guarding: a deleting command can never run past the delete guard
/// when no verdict is at hand (judge unavailable or switched off); when the judge
/// cannot be used, no command runs without a check (fail-closed); a dangerous
/// verdict always asks a person first, whatever the approval policy; every
/// capability a verdict names goes through its own guard, in the verdict's order;
/// and a harmless verdict touching no capability runs without any check.
pub proof fn law_execute_checks(intent: ExecIntent, command: Seq<char>)
    ensures
        ({
            let r = execute_checks_spec(intent, command);
            &&& (intent !is Verdict && deletes(command)) ==> r.contains(delete_check(command))
            &&& intent is Unavailable ==> r.len() == 1
            &&& intent matches ExecIntent::Verdict(v) ==> {
                let off: int = if v.dangerous { 1 } else { 0 };
                &&& v.dangerous ==> r.len() > 0 && r[0] == dangerous_check(v.reason@, command)
                &&& !v.dangerous && v.capabilities@.len() == 0 ==> r.len() == 0
                &&& r.len() == off + v.capabilities@.len()
                &&& forall|i: int|
                    0 <= i < v.capabilities@.len() ==> #[trigger] r[off + i] == capability_check(
                        v.capabilities@[i]@,
                        v.reason@,
                        command,
                    )
            }
        }),
{
    let r = execute_checks_spec(intent, command);
    if intent !is Verdict && deletes(command) {
        assert(r[0] == delete_check(command));
    }
}


/// The number of non-overlapping occurrences of `n` in `h` from position `i`
/// on, found left to right (as std's `str::matches` counts them).
pub open spec fn count_from(h: Seq<char>, n: Seq<char>, i: int) -> nat
    decreases h.len() + 1 - i,
{
    if n.len() == 0 || i < 0 {
        0
    } else {
        match find_from(h, n, i) {
            Some(k) => {
                proof {
                    lemma_find_from(h, n, i);
                }
                1 + count_from(h, n, k + n.len())
            },
            None => 0,
        }
    }
}

/// `h` from position `i` on with every non-overlapping occurrence of `n`
/// replaced by `r`, left to right (as std's `str::replace`).
pub open spec fn replace_from(h: Seq<char>, n: Seq<char>, r: Seq<char>, i: int) -> Seq<char>
    decreases h.len() + 1 - i,
{
    if n.len() == 0 || i < 0 {
        h.skip(i)
    } else {
        match find_from(h, n, i) {
            Some(k) => {
                proof {
                    lemma_find_from(h, n, i);
                }
                h.subrange(i, k) + r + replace_from(h, n, r, k + n.len())
            },
            None => h.skip(i),
        }
    }
}

/// `h` with its first occurrence of `n` replaced by `r` (as std's `str::replacen` with 1).
pub open spec fn replace_first(h: Seq<char>, n: Seq<char>, r: Seq<char>) -> Seq<char> {
    match find_from(h, n, 0) {
        Some(k) => h.take(k) + r + h.skip(k + n.len()),
        None => h,
    }
}

/// The decimal digits of `n`.
pub open spec fn decimal(n: nat) -> Seq<char>
    decreases n,
{
    if n < 10 {
        seq![digit_char(n)]
    } else {
        decimal(n / 10).push(digit_char(n % 10))
    }
}

pub open spec fn digit_char(d: nat) -> char {
    if d == 0 { '0' } else if d == 1 { '1' } else if d == 2 { '2' } else if d == 3 { '3' } else if d
        == 4 { '4' } else if d == 5 { '5' } else if d == 6 { '6' } else if d == 7 { '7' } else if d
        == 8 { '8' } else { '9' }
}

fn digit(d: usize) -> (c: char)
    requires
        d < 10,
    ensures
        c == digit_char(d as nat),
{
    if d == 0 { '0' } else if d == 1 { '1' } else if d == 2 { '2' } else if d == 3 { '3' } else if d
        == 4 { '4' } else if d == 5 { '5' } else if d == 6 { '6' } else if d == 7 { '7' } else if d
        == 8 { '8' } else { '9' }
}

/// The decimal text of `n`.
pub fn decimal_chars(n: usize) -> (r: Vec<char>)
    ensures
        r@ == decimal(n as nat),
    decreases n,
{
    if n < 10 {
        let mut v: Vec<char> = Vec::new();
        v.push(digit(n));
        v
    } else {
        let mut v = decimal_chars(n / 10);
        v.push(digit(n % 10));
        v
    }
}

fn count_matches(h: &Vec<char>, n: &Vec<char>) -> (c: usize)
    requires
        n.len() > 0,
    ensures
        c == count_from(h@, n@, 0),
{
    let mut c: usize = 0;
    let mut i: usize = 0;
    while i <= h.len()
        invariant
            n.len() > 0,
            c + count_from(h@, n@, i as int) == count_from(h@, n@, 0),
            c <= i,
        decreases h.len() + 1 - i,
    {
        match find_chars(h, n, i) {
            Some(k) => {
                proof {
                    lemma_find_from(h@, n@, i as int);
                }
                c = c + 1;
                i = k + n.len();
            },
            None => {
                return c;
            },
        }
    }
    proof {
        assert(find_from(h@, n@, i as int) is None);
    }
    c
}

fn replace_all_chars(h: &Vec<char>, n: &Vec<char>, r: &Vec<char>) -> (out: Vec<char>)
    requires
        n.len() > 0,
    ensures
        out@ == replace_from(h@, n@, r@, 0),
{
    let mut out: Vec<char> = Vec::new();
    let mut i: usize = 0;
    assert(h@.skip(0) =~= h@);
    while i <= h.len()
        invariant
            n.len() > 0,
            i <= h.len(),
            out@ + replace_from(h@, n@, r@, i as int) == replace_from(h@, n@, r@, 0),
        decreases h.len() + 1 - i,
    {
        match find_chars(h, n, i) {
            Some(k) => {
                proof {
                    lemma_find_from(h@, n@, i as int);
                }
                let ghost before = out@;
                let seg = copy_range(h, i, k);
                push_chars(&mut out, &seg);
                push_chars(&mut out, r);
                proof {
                    let rest = replace_from(h@, n@, r@, k + n@.len());
                    assert(replace_from(h@, n@, r@, i as int) == h@.subrange(i as int, k as int) + r@ + rest);
                    assert(before + (h@.subrange(i as int, k as int) + r@ + rest) =~= out@ + rest);
                }
                i = k + n.len();
            },
            None => {
                let tail = copy_range(h, i, h.len());
                let ghost before = out@;
                push_chars(&mut out, &tail);
                assert(tail@ =~= h@.skip(i as int));
                return out;
            },
        }
    }
    out
}

fn replace_first_chars(h: &Vec<char>, n: &Vec<char>, r: &Vec<char>) -> (out: Vec<char>)
    ensures
        out@ == replace_first(h@, n@, r@),
{
    match find_chars(h, n, 0) {
        Some(k) => {
            proof {
                lemma_find_from(h@, n@, 0);
            }
            let mut out = copy_range(h, 0, k);
            push_chars(&mut out, r);
            let tail = copy_range(h, k + n.len(), h.len());
            push_chars(&mut out, &tail);
            assert(out@ =~= replace_first(h@, n@, r@));
            out
        },
        None => copy_range(h, 0, h.len()),
    }
}

pub open spec fn missing_edit_args_message() -> Seq<char> {
    "缺少参数 path 或 old_text"@
}

pub open spec fn not_found_message() -> Seq<char> {
    "old_text 在文件中不存在（必须精确匹配，包含空白与缩进）"@
}

pub open spec fn not_unique_message(count: nat) -> Seq<char> {
    "old_text 在文件中出现 "@ + decimal(count)
        + " 次，不唯一。请提供更多上下文使其唯一，或设置 replace_all = true"@
}

/// The outcome of an exact-text edit: the new file text and the number of
/// replacements, or the reason the edit is refused. The text to replace must
/// occur; when it occurs more than once, all occurrences are replaced only with
/// `replace_all`, and otherwise the edit is refused as ambiguous.
pub open spec fn edit_outcome(original: Seq<char>, old_text: Seq<char>, new_text: Seq<char>, replace_all: bool) -> Result<
    (Seq<char>, nat),
    Seq<char>,
> {
    let count = count_from(original, old_text, 0);
    if old_text.len() == 0 {
        Err(missing_edit_args_message())
    } else if count == 0 {
        Err(not_found_message())
    } else if count > 1 && !replace_all {
        Err(not_unique_message(count))
    } else if replace_all {
        Ok((replace_from(original, old_text, new_text, 0), count))
    } else {
        Ok((replace_first(original, old_text, new_text), 1))
    }
}

proof fn lemma_replace_len(h: Seq<char>, n: Seq<char>, r: Seq<char>, i: int)
    requires
        n.len() > 0,
        0 <= i <= h.len(),
    ensures
        replace_from(h, n, r, i).len() + count_from(h, n, i) * n.len() == (h.len() - i)
            + count_from(h, n, i) * r.len(),
    decreases h.len() + 1 - i,
{
    lemma_find_from(h, n, i);
    match find_from(h, n, i) {
        Some(k) => {
            assert(k + n.len() <= h.len());
            lemma_replace_len(h, n, r, k + n.len());
            let c = count_from(h, n, k + n.len());
            let tail = replace_from(h, n, r, k + n.len());
            assert(count_from(h, n, i) == 1 + c);
            assert(replace_from(h, n, r, i) == h.subrange(i, k) + r + tail);
            assert(replace_from(h, n, r, i).len() == (k - i) + r.len() + tail.len());
            assert((1 + c) * n.len() == n.len() + c * n.len()) by (nonlinear_arith);
            assert((1 + c) * r.len() == r.len() + c * r.len()) by (nonlinear_arith);
        },
        None => {
            assert(count_from(h, n, i) == 0);
            assert(replace_from(h, n, r, i) == h.skip(i));
        },
    }
}

/// Law of edits: a successful edit changes the text's length by exactly the
/// difference between the new and the old text, once per replacement — one
/// replacement without `replace_all`, every occurrence with it.
pub proof fn law_edit_length(original: Seq<char>, old_text: Seq<char>, new_text: Seq<char>, replace_all: bool)
    ensures
        match edit_outcome(original, old_text, new_text, replace_all) {
            Ok((t, c)) => t.len() + c * old_text.len() == original.len() + c * new_text.len()
                && (!replace_all ==> c == 1),
            Err(_) => true,
        },
{
    if old_text.len() > 0 {
        lemma_replace_len(original, old_text, new_text, 0);
        lemma_find_from(original, old_text, 0);
    }
}

/// Applies an exact-text edit to a file's text.
pub fn plan_edit(original: &str, old_text: &str, new_text: &str, replace_all: bool) -> (r: Result<
    (String, usize),
    String,
>)
    ensures
        match (r, edit_outcome(original@, old_text@, new_text@, replace_all)) {
            (Ok((t, c)), Ok((et, ec))) => t@ == et && c == ec,
            (Err(e), Err(ee)) => e@ == ee,
            _ => false,
        },
{
    let h = chars_of(original);
    let n = chars_of(old_text);
    let rep = chars_of(new_text);
    if n.len() == 0 {
        return Err(to_owned_string("缺少参数 path 或 old_text"));
    }
    let count = count_matches(&h, &n);
    if count == 0 {
        return Err(to_owned_string("old_text 在文件中不存在（必须精确匹配，包含空白与缩进）"));
    }
    if count > 1 && !replace_all {
        let mut m = chars_of("old_text 在文件中出现 ");
        push_chars(&mut m, &decimal_chars(count));
        push_str(&mut m, " 次，不唯一。请提供更多上下文使其唯一，或设置 replace_all = true");
        return Err(string_from_chars(m.as_slice()));
    }
    if replace_all {
        let out = replace_all_chars(&h, &n, &rep);
        Ok((string_from_chars(out.as_slice()), count))
    } else {
        let out = replace_first_chars(&h, &n, &rep);
        Ok((string_from_chars(out.as_slice()), 1))
    }
}


/// A file read returns at most this many bytes.
pub const MAX_READ_BYTES: usize = 64 * 1024;

/// A command runs this many seconds unless the call asks otherwise.
pub const DEFAULT_EXEC_TIMEOUT_SECS: u64 = 120;

/// A command never runs longer than this many seconds.
pub const MAX_EXEC_TIMEOUT_SECS: u64 = 600;

/// The number of bytes a file read takes: the requested `max_bytes` (64 KiB
/// when not given), never more than 64 KiB.
pub fn read_cap(requested: Option<u64>) -> (r: usize)
    ensures
        r == match requested {
            Some(n) => if n < MAX_READ_BYTES { n as int } else { MAX_READ_BYTES as int },
            None => MAX_READ_BYTES as int,
        },
{
    match requested {
        Some(n) => if n < 65536u64 {
            n as usize
        } else {
            MAX_READ_BYTES
        },
        None => MAX_READ_BYTES,
    }
}

/// The time a command may run: the requested seconds (120 when not given), at most 600.
pub fn exec_timeout_secs(requested: Option<u64>) -> (r: u64)
    ensures
        r == match requested {
            Some(n) => if n < MAX_EXEC_TIMEOUT_SECS { n } else { MAX_EXEC_TIMEOUT_SECS },
            None => DEFAULT_EXEC_TIMEOUT_SECS,
        },
{
    match requested {
        Some(n) => if n < MAX_EXEC_TIMEOUT_SECS {
            n
        } else {
            MAX_EXEC_TIMEOUT_SECS
        },
        None => DEFAULT_EXEC_TIMEOUT_SECS,
    }
}


/// A call of one of the five system tools, with the arguments that decide how it is guarded.
pub enum SysCall {
    Read { path: String },
    /// `bytes` is the length in bytes of the content to write.
    Write { path: String, bytes: usize },
    /// `has_old_text` tells whether a non-empty text to replace was given.
    Edit { path: String, has_old_text: bool },
    Delete { path: String, recursive: bool },
    Execute { command: String },
}

pub enum SysCallView {
    Read(Seq<char>),
    Write(Seq<char>, nat),
    Edit(Seq<char>, bool),
    Delete(Seq<char>, bool),
    Execute(Seq<char>),
}

impl View for SysCall {
    type V = SysCallView;

    open spec fn view(&self) -> SysCallView {
        match self {
            SysCall::Read { path } => SysCallView::Read(path@),
            SysCall::Write { path, bytes } => SysCallView::Write(path@, *bytes as nat),
            SysCall::Edit { path, has_old_text } => SysCallView::Edit(path@, *has_old_text),
            SysCall::Delete { path, recursive } => SysCallView::Delete(path@, *recursive),
            SysCall::Execute { command } => SysCallView::Execute(command@),
        }
    }
}

/// How a tool call is guarded: the capability it needs, the tool's name, and the
/// summary shown in approvals and activity.
pub struct CallPlan {
    pub capability: String,
    pub tool: String,
    pub summary: String,
}

/// The plan of a tool call as (capability, tool, summary), or the error for a
/// missing argument: every tool needs its path (the edit tool also the text to
/// replace), the execute tool its command.
pub open spec fn call_plan(c: SysCallView) -> Result<(Seq<char>, Seq<char>, Seq<char>), Seq<char>> {
    match c {
        SysCallView::Read(path) => if path.len() == 0 {
            Err("缺少参数 path"@)
        } else {
            Ok(("read"@, "sys_read"@, "读取 "@ + path))
        },
        SysCallView::Write(path, bytes) => if path.len() == 0 {
            Err("缺少参数 path"@)
        } else {
            Ok(("write"@, "sys_write"@, "写入文件 "@ + path + " ("@ + decimal(bytes) + " 字节)"@))
        },
        SysCallView::Edit(path, has_old) => if path.len() == 0 || !has_old {
            Err("缺少参数 path 或 old_text"@)
        } else {
            Ok(("edit"@, "sys_edit"@, "修改文件 "@ + path))
        },
        SysCallView::Delete(path, recursive) => if path.len() == 0 {
            Err("缺少参数 path"@)
        } else {
            Ok((
                "delete"@,
                "sys_delete"@,
                "删除 "@ + path + if recursive { "（递归）"@ } else { Seq::empty() },
            ))
        },
        SysCallView::Execute(command) => if command.len() == 0 {
            Err("缺少参数 command"@)
        } else {
            Ok(("execute"@, "sys_execute"@, "执行命令: "@ + command))
        },
    }
}

fn plan_of(capability: &str, tool: &str, head: &str, rest: &Vec<char>) -> (r: CallPlan)
    ensures
        r.capability@ == capability@,
        r.tool@ == tool@,
        r.summary@ == head@ + rest@,
{
    let mut s = chars_of(head);
    push_chars(&mut s, rest);
    CallPlan {
        capability: to_owned_string(capability),
        tool: to_owned_string(tool),
        summary: string_from_chars(s.as_slice()),
    }
}

/// The guard plan of a system tool call, or the error for a missing argument.
pub fn plan_call(c: &SysCall) -> (r: Result<CallPlan, String>)
    ensures
        match (r, call_plan(c@)) {
            (Ok(p), Ok(q)) => p.capability@ == q.0 && p.tool@ == q.1 && p.summary@ == q.2,
            (Err(e), Err(m)) => e@ == m,
            _ => false,
        },
{
    match c {
        SysCall::Read { path } => {
            if path.as_str().is_empty() {
                return Err(to_owned_string("缺少参数 path"));
            }
            Ok(plan_of("read", "sys_read", "读取 ", &chars_of(path.as_str())))
        },
        SysCall::Write { path, bytes } => {
            if path.as_str().is_empty() {
                return Err(to_owned_string("缺少参数 path"));
            }
            let mut rest = chars_of(path.as_str());
            push_str(&mut rest, " (");
            push_chars(&mut rest, &decimal_chars(*bytes));
            push_str(&mut rest, " 字节)");
            let p = plan_of("write", "sys_write", "写入文件 ", &rest);
            proof {
                let q = call_plan(c@);
                assert(p.summary@ =~= q->Ok_0.2);
            }
            Ok(p)
        },
        SysCall::Edit { path, has_old_text } => {
            if path.as_str().is_empty() || !*has_old_text {
                return Err(to_owned_string("缺少参数 path 或 old_text"));
            }
            Ok(plan_of("edit", "sys_edit", "修改文件 ", &chars_of(path.as_str())))
        },
        SysCall::Delete { path, recursive } => {
            if path.as_str().is_empty() {
                return Err(to_owned_string("缺少参数 path"));
            }
            let mut rest = chars_of(path.as_str());
            if *recursive {
                push_str(&mut rest, "（递归）");
            }
            let p = plan_of("delete", "sys_delete", "删除 ", &rest);
            proof {
                let q = call_plan(c@);
                assert(p.summary@ =~= q->Ok_0.2);
            }
            Ok(p)
        },
        SysCall::Execute { command } => {
            if command.as_str().is_empty() {
                return Err(to_owned_string("缺少参数 command"));
            }
            Ok(plan_of("execute", "sys_execute", "执行命令: ", &chars_of(command.as_str())))
        },
    }
}


proof fn lemma_split_at_separator(a: Seq<char>, s: char, w: Seq<char>)
    requires
        command_separator(s),
    ensures
        split_pieces(a + seq![s] + w) == split_pieces(a) + split_pieces(w),
    decreases w.len(),
{
    lemma_split_pieces_len(a);
    if w.len() == 0 {
        assert(a + seq![s] + w =~= a + seq![s]);
        assert((a + seq![s]).drop_last() =~= a);
        assert(split_pieces(w) =~= seq![Seq::<char>::empty()]);
        assert(split_pieces(a).push(Seq::<char>::empty()) =~= split_pieces(a) + split_pieces(w));
    } else {
        let w0 = w.drop_last();
        lemma_split_at_separator(a, s, w0);
        lemma_split_pieces_len(w0);
        let whole = a + seq![s] + w;
        assert(whole.drop_last() =~= a + seq![s] + w0);
        assert(whole.last() == w.last());
        let l = split_pieces(a);
        let r = split_pieces(w0);
        if command_separator(w.last()) {
            assert((l + r).push(Seq::<char>::empty()) =~= l + r.push(Seq::<char>::empty()));
        } else {
            assert((l + r).update((l + r).len() - 1, (l + r).last().push(w.last())) =~= l + r.update(
                r.len() - 1,
                r.last().push(w.last()),
            ));
        }
    }
}

proof fn lemma_split_single_word(p: Seq<char>)
    requires
        forall|j: int| 0 <= j < p.len() ==> !command_separator(#[trigger] p[j]),
    ensures
        split_pieces(p) == seq![p],
    decreases p.len(),
{
    if p.len() == 0 {
        assert(p =~= Seq::<char>::empty());
        assert(split_pieces(p) =~= seq![p]);
    } else {
        let p0 = p.drop_last();
        assert forall|j: int| 0 <= j < p0.len() implies !command_separator(#[trigger] p0[j]) by {
            assert(p0[j] == p[j]);
        }
        lemma_split_single_word(p0);
        assert(!command_separator(p[p.len() - 1]));
        assert(p0.push(p.last()) =~= p);
        assert(seq![p0].update(0, p0.push(p.last())) =~= seq![p]);
    }
}

/// Law of deleting words: rm, rmdir, unlink and shred, written as a word of their
/// own between any two command separators — whitespace, | & ; ( ) ` < > " ' $ —
/// make the command a deleting one, whatever comes before and after; with intent
/// judging switched off such a command then has to pass the delete guard.
/// (The names are taken as std's lower-casing leaves them and as holding no
/// whitespace, which is what `str::to_lowercase` and `char::is_whitespace` give
/// for these ASCII letters.)
pub proof fn law_separated_delete_word_is_detected(x: Seq<char>, y: Seq<char>, s: char, t: char, p: Seq<char>)
    requires
        p == "rm"@ || p == "rmdir"@ || p == "unlink"@ || p == "shred"@,
        lowercase(p) == p,
        forall|j: int| 0 <= j < p.len() ==> !is_white(#[trigger] p[j]),
        is_white(s) || s == '|' || s == '&' || s == ';' || s == '(' || s == ')' || s == '`' || s == '<'
            || s == '>' || s == '"' || s == '\'' || s == '$',
        is_white(t) || t == '|' || t == '&' || t == ';' || t == '(' || t == ')' || t == '`' || t == '<'
            || t == '>' || t == '"' || t == '\'' || t == '$',
    ensures
        deletes(x + seq![s] + p + seq![t] + y),
        execute_checks_spec(ExecIntent::Disabled, x + seq![s] + p + seq![t] + y) == seq![
            delete_check(x + seq![s] + p + seq![t] + y),
        ],
{
    reveal_strlit("rm");
    reveal_strlit("rmdir");
    reveal_strlit("unlink");
    reveal_strlit("shred");
    let c = x + seq![s] + p + seq![t] + y;
    assert forall|j: int| 0 <= j < p.len() implies !command_separator(#[trigger] p[j]) by {
        assert(!is_white(p[j]));
    }
    lemma_split_single_word(p);
    lemma_split_at_separator(p, t, y);
    assert(x + seq![s] + p + seq![t] + y =~= x + seq![s] + (p + seq![t] + y));
    lemma_split_at_separator(x, s, p + seq![t] + y);
    let pieces = split_pieces(c);
    let k = split_pieces(x).len() as int;
    assert(pieces == split_pieces(x) + (seq![p] + split_pieces(y)));
    assert(pieces[k] == p);
    assert(after_last_slash(p) == p) by {
        reveal_with_fuel(after_last_slash, 7);
        assert(after_last_slash(p) =~= p);
    }
    assert(deleting_word(pieces[k]));
}

} // verus!
