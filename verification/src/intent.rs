//! Command intent verdicts: what a judge model says a shell command will really
//! do, cleaned so that only known capability names can reach the guard.
use vstd::prelude::*;
use crate::text::{chars_of, copy_range, lex_lt, push_chars, push_str, string_from_chars, str_eq, to_owned_string};

verus! {

broadcast use vstd::string::group_string_axioms;

/// A judge's verdict on a command.
pub struct IntentVerdict {
    /// The file capabilities involved: a subset of read / write / edit / delete.
    pub capabilities: Vec<String>,
    /// Whether the command is destructive or irreversible.
    pub dangerous: bool,
    /// A short reason, shown to the person asked for approval.
    pub reason: String,
}

/// The capability names a verdict may carry, in ascending order.
pub open spec fn legal_capabilities() -> Seq<Seq<char>> {
    seq!["delete"@, "edit"@, "read"@, "write"@]
}

/// Whether `w` is among the names in `caps`.
pub open spec fn names_contain(caps: Seq<String>, w: Seq<char>) -> bool {
    exists|i: int| 0 <= i < caps.len() && #[trigger] caps[i]@ == w
}

/// The legal names that occur in `caps`, each once, in ascending order.
pub open spec fn sanitized(caps: Seq<String>) -> Seq<Seq<char>> {
    keep_if(names_contain(caps, "delete"@), "delete"@) + keep_if(names_contain(caps, "edit"@), "edit"@)
        + keep_if(names_contain(caps, "read"@), "read"@) + keep_if(
        names_contain(caps, "write"@),
        "write"@,
    )
}

/// `[w]` when `b` holds, `[]` otherwise.
pub open spec fn keep_if(b: bool, w: Seq<char>) -> Seq<Seq<char>> {
    if b {
        seq![w]
    } else {
        Seq::empty()
    }
}

/// Law of capability cleaning: what is kept is exactly the known names that the
/// judge gave, each once, in ascending order — the same list that keeping the
/// known names, sorting and removing repeats gives; an unknown name can never pass.
pub proof fn law_sanitized_is_sorted_known_subset(caps: Seq<String>)
    ensures
        ({
            let r = sanitized(caps);
            &&& forall|i: int| 0 <= i < r.len() ==> legal_capabilities().contains(#[trigger] r[i])
            &&& forall|i: int| 0 <= i < r.len() ==> names_contain(caps, #[trigger] r[i])
            &&& forall|w: Seq<char>|
                legal_capabilities().contains(w) && names_contain(caps, w) ==> r.contains(w)
            &&& forall|i: int, j: int| 0 <= i < j < r.len() ==> lex_lt(#[trigger] r[i], #[trigger] r[j])
        }),
{
    reveal_strlit("delete");
    reveal_strlit("edit");
    reveal_strlit("read");
    reveal_strlit("write");
    let l = legal_capabilities();
    let r = sanitized(caps);
    assert(l[0] == "delete"@ && l[1] == "edit"@ && l[2] == "read"@ && l[3] == "write"@);
    assert(lex_lt("delete"@, "edit"@));
    assert(lex_lt("delete"@, "read"@));
    assert(lex_lt("delete"@, "write"@));
    assert(lex_lt("edit"@, "read"@));
    assert(lex_lt("edit"@, "write"@));
    assert(lex_lt("read"@, "write"@));
    assert forall|i: int| 0 <= i < r.len() implies legal_capabilities().contains(#[trigger] r[i])
        && names_contain(caps, r[i]) by {
        if r[i] == "delete"@ {
            assert(l[0] == r[i]);
        } else if r[i] == "edit"@ {
            assert(l[1] == r[i]);
        } else if r[i] == "read"@ {
            assert(l[2] == r[i]);
        } else {
            assert(l[3] == r[i]);
        }
    }
    assert forall|w: Seq<char>| legal_capabilities().contains(w) && names_contain(caps, w) implies r.contains(
        w,
    ) by {
        let k = choose|k: int| 0 <= k < l.len() && l[k] == w;
        let a = keep_if(names_contain(caps, "delete"@), "delete"@);
        let b = keep_if(names_contain(caps, "edit"@), "edit"@);
        let c = keep_if(names_contain(caps, "read"@), "read"@);
        let d = keep_if(names_contain(caps, "write"@), "write"@);
        if k == 0 {
            assert(r[0] == w);
        } else if k == 1 {
            assert(r[a.len() as int] == w);
        } else if k == 2 {
            assert(r[(a.len() + b.len()) as int] == w);
        } else {
            assert(r[(a.len() + b.len() + c.len()) as int] == w);
        }
    }
}

fn has_name(caps: &Vec<String>, w: &str) -> (r: bool)
    ensures
        r == names_contain(caps@, w@),
{
    let mut i: usize = 0;
    while i < caps.len()
        invariant
            i <= caps.len(),
            forall|j: int| 0 <= j < i ==> #[trigger] caps@[j]@ != w@,
        decreases caps.len() - i,
    {
        if str_eq(caps[i].as_str(), w) {
            return true;
        }
        i = i + 1;
    }
    false
}

/// Keeps only known capability names, sorted, without repeats.
pub fn sanitize_capabilities(caps: &Vec<String>) -> (r: Vec<String>)
    ensures
        r@.map_values(|s: String| s@) == sanitized(caps@),
{
    let mut r: Vec<String> = Vec::new();
    let d = has_name(caps, "delete");
    let e = has_name(caps, "edit");
    let rd = has_name(caps, "read");
    let w = has_name(caps, "write");
    if d {
        r.push(to_owned_string("delete"));
    }
    if e {
        r.push(to_owned_string("edit"));
    }
    if rd {
        r.push(to_owned_string("read"));
    }
    if w {
        r.push(to_owned_string("write"));
    }
    assert(r@.map_values(|s: String| s@) =~= sanitized(caps@));
    r
}

/// The text from the first '{' on, where a JSON verdict may start.
pub open spec fn first_brace(s: Seq<char>) -> Option<int>
    decreases s.len(),
{
    if s.len() == 0 {
        None
    } else if s[0] == '{' {
        Some(0)
    } else {
        match first_brace(s.drop_first()) {
            Some(k) => Some(k + 1),
            None => None,
        }
    }
}

pub proof fn lemma_first_brace(s: Seq<char>)
    ensures
        match first_brace(s) {
            Some(k) => 0 <= k < s.len() && s[k] == '{' && forall|j: int| 0 <= j < k ==> s[j] != '{',
            None => forall|j: int| 0 <= j < s.len() ==> s[j] != '{',
        },
    decreases s.len(),
{
    if s.len() > 0 && s[0] != '{' {
        lemma_first_brace(s.drop_first());
        assert forall|j: int| 0 < j < s.len() implies s[j] == s.drop_first()[j - 1] by {}
    }
}

/// The model output from its first '{' on, or `None` when it holds no '{'.
pub fn json_tail(raw: &str) -> (r: Option<String>)
    ensures
        match first_brace(raw@) {
            Some(k) => r is Some && r->0@ == raw@.skip(k),
            None => r is None,
        },
{
    let v = chars_of(raw);
    proof {
        lemma_first_brace(v@);
    }
    let mut i: usize = 0;
    while i < v.len()
        invariant
            v@ == raw@,
            i <= v.len(),
            forall|j: int| 0 <= j < i ==> v@[j] != '{',
        decreases v.len() - i,
    {
        if v[i] == '{' {
            let t = copy_range(&v, i, v.len());
            assert(t@ =~= raw@.skip(i as int));
            proof {
                lemma_first_brace(raw@);
                if first_brace(raw@) is Some {
                    let k = first_brace(raw@)->0;
                    assert(k == i);
                }
            }
            return Some(string_from_chars(t.as_slice()));
        }
        i = i + 1;
    }
    proof {
        lemma_first_brace(raw@);
        if first_brace(raw@) is Some {
            let k = first_brace(raw@)->0;
            assert(raw@[k] == '{');
        }
    }
    None
}

/// What looking for a JSON verdict in the model output gave: no JSON at all, or
/// the outcome of reading the first JSON value of its tail.
pub enum VerdictParse {
    /// The output holds no '{' at all.
    NoJson,
    /// A whole verdict object.
    Parsed(IntentVerdict),
    /// A parse error, with its message.
    Failed(String),
    /// The text ended before a value was complete.
    Incomplete,
}

pub open spec fn no_json_message() -> Seq<char> {
    "模型未输出 JSON"@
}

pub open spec fn parse_failed_message(e: Seq<char>) -> Seq<char> {
    "判定 JSON 解析失败: "@ + e
}

pub open spec fn incomplete_message() -> Seq<char> {
    "模型输出的 JSON 不完整"@
}

/// The verdict, with its capability names cleaned, or the error that the parse outcome gives.
pub fn verdict_from_parse(p: VerdictParse) -> (r: Result<IntentVerdict, String>)
    ensures
        match p {
            VerdictParse::Parsed(v) => r matches Ok(w) && w.dangerous == v.dangerous && w.reason
                == v.reason && w.capabilities@.map_values(|s: String| s@) == sanitized(
                v.capabilities@,
            ),
            VerdictParse::Failed(e) => r matches Err(m) && m@ == parse_failed_message(e@),
            VerdictParse::Incomplete => r matches Err(m) && m@ == incomplete_message(),
            VerdictParse::NoJson => r matches Err(m) && m@ == no_json_message(),
        },
{
    match p {
        VerdictParse::Parsed(v) => {
            let caps = sanitize_capabilities(&v.capabilities);
            Ok(IntentVerdict { capabilities: caps, dangerous: v.dangerous, reason: v.reason })
        },
        VerdictParse::Failed(e) => {
            let mut out: Vec<char> = Vec::new();
            push_str(&mut out, "判定 JSON 解析失败: ");
            push_chars(&mut out, &chars_of(e.as_str()));
            Err(string_from_chars(out.as_slice()))
        },
        VerdictParse::Incomplete => Err(to_owned_string("模型输出的 JSON 不完整")),
        VerdictParse::NoJson => Err(to_owned_string("模型未输出 JSON")),
    }
}

} // verus!
