//! Skills: SKILL.md files with a YAML front matter (name / description), an
//! index of them for the system instruction, and lookup by name.
use vstd::prelude::*;
use crate::text::{
    chars_of, chars_eq, copy_range, find_chars, find_from, leading_count, push_chars, push_str,
    starts_with, starts_with_chars, string_from_chars, str_eq, to_owned_string, trailing_count,
    trim, trim_chars, trim_start, trim_start_chars, lemma_leading_count, lemma_trailing_count,
    lemma_find_from, lex_lt, lex_lt_chars, lemma_lex_total, lemma_lex_transitive, lines, lines_exec,
};

verus! {

broadcast use vstd::string::group_string_axioms;

/// One skill: its name, a one-line description, and the path of its SKILL.md.
pub struct Skill {
    pub name: String,
    pub description: String,
    pub path: String,
}

/// The parent of a path, as std's `Path::parent` gives it (named; std's rules on
/// separators and components are not restated).
pub uninterp spec fn path_parent(p: Seq<char>) -> Option<Seq<char>>;

/// The last component of a path, as std's `Path::file_name` gives it (named).
pub uninterp spec fn path_file_name(p: Seq<char>) -> Option<Seq<char>>;

/// std's `Path::parent`, for a path given as text: the result is named `path_parent`
/// of the text; a parent that is not valid text (impossible for a text path) reads as none.
#[verifier::external_body]
fn parent_of(p: &str) -> (r: Option<String>)
    ensures
        match r {
            Some(s) => path_parent(p@) == Some(s@),
            None => path_parent(p@) is None,
        },
{
    match std::path::Path::new(p).parent() {
        Some(q) => q.to_str().map(|t| t.to_string()),
        None => None,
    }
}

/// std's `Path::file_name`, for a path given as text: the result is named `path_file_name`.
#[verifier::external_body]
fn file_name_of(p: &str) -> (r: Option<String>)
    ensures
        match r {
            Some(s) => path_file_name(p@) == Some(s@),
            None => path_file_name(p@) is None,
        },
{
    match std::path::Path::new(p).file_name() {
        Some(q) => q.to_str().map(|t| t.to_string()),
        None => None,
    }
}

/// The name a skill falls back to: its directory's name, else "unnamed".
pub open spec fn fallback_name(path: Seq<char>) -> Seq<char> {
    match path_parent(path) {
        Some(d) => match path_file_name(d) {
            Some(n) => n,
            None => "unnamed"@,
        },
        None => "unnamed"@,
    }
}


/// Quote characters stripped around a front-matter value.
pub open spec fn quote_pred() -> spec_fn(char) -> bool {
    |c: char| c == '"' || c == '\''
}

/// `s` without leading and trailing quote characters (std's `str::trim_matches`).
pub open spec fn trim_quotes(s: Seq<char>) -> Seq<char> {
    let a = s.skip(leading_count(s, quote_pred()) as int);
    a.take(a.len() - trailing_count(a, quote_pred()))
}

/// The value of `field: value` on a front-matter line: trimmed, unquoted, non-empty.
pub open spec fn field_value(line: Seq<char>, field: Seq<char>) -> Option<Seq<char>> {
    let t = trim(line);
    let pre = field + ":"@;
    if starts_with(t, pre) {
        let v = trim_quotes(trim(t.skip(pre.len() as int)));
        if v.len() > 0 {
            Some(v)
        } else {
            None
        }
    } else {
        None
    }
}

/// The value of the first line in `ls` that gives `field` one.
pub open spec fn first_field(ls: Seq<Seq<char>>, field: Seq<char>) -> Option<Seq<char>>
    decreases ls.len(),
{
    if ls.len() == 0 {
        None
    } else {
        match field_value(ls[0], field) {
            Some(v) => Some(v),
            None => first_field(ls.drop_first(), field),
        }
    }
}

/// The first line of `ls` that is not blank, or the empty line.
pub open spec fn first_nonblank(ls: Seq<Seq<char>>) -> Seq<char>
    decreases ls.len(),
{
    if ls.len() == 0 {
        Seq::empty()
    } else if trim(ls[0]).len() > 0 {
        ls[0]
    } else {
        first_nonblank(ls.drop_first())
    }
}

/// `s` without leading '#' characters.
pub open spec fn trim_hashes(s: Seq<char>) -> Seq<char> {
    s.skip(leading_count(s, |c: char| c == '#') as int)
}

/// The (name, description) that a SKILL.md yields. With a front matter
/// ("---" after leading whitespace, closed by a line starting "---"): its `name`
/// (else the fallback name) and its `description` (else empty). Without one: the
/// fallback name, and the first non-blank line stripped of leading '#' and trimmed.
pub open spec fn frontmatter(raw: Seq<char>, path: Seq<char>) -> (Seq<char>, Seq<char>) {
    let t = trim_start(raw);
    let rest = t.skip(3);
    let close = find_from(rest, "\n---"@, 0);
    if starts_with(t, "---"@) && close is Some {
        let ls = lines(rest.take(close->0));
        (
            match first_field(ls, "name"@) {
                Some(n) => n,
                None => fallback_name(path),
            },
            match first_field(ls, "description"@) {
                Some(d) => d,
                None => Seq::empty(),
            },
        )
    } else {
        (fallback_name(path), trim(trim_hashes(first_nonblank(lines(raw)))))
    }
}

fn trim_quotes_exec(v: &Vec<char>) -> (r: Vec<char>)
    ensures
        r@ == trim_quotes(v@),
{
    let ghost q = quote_pred();
    let mut a: usize = 0;
    assert(v@.skip(0) =~= v@);
    while a < v.len() && (v[a] == '"' || v[a] == '\'')
        invariant
            a <= v.len(),
            q == quote_pred(),
            leading_count(v@, q) == a + leading_count(v@.skip(a as int), q),
        decreases v.len() - a,
    {
        assert(v@.skip(a as int).drop_first() =~= v@.skip(a + 1));
        a = a + 1;
    }
    let s = copy_range(v, a, v.len());
    assert(s@ =~= v@.skip(a as int));
    let mut b: usize = 0;
    assert(s@.take(s.len() as int) =~= s@);
    while b < s.len() && (s[s.len() - 1 - b] == '"' || s[s.len() - 1 - b] == '\'')
        invariant
            b <= s.len(),
            q == quote_pred(),
            trailing_count(s@, q) == b + trailing_count(s@.take(s.len() - b), q),
        decreases s.len() - b,
    {
        assert(s@.take(s.len() - b).drop_last() =~= s@.take(s.len() - (b + 1)));
        b = b + 1;
    }
    proof {
        lemma_leading_count(v@, q);
        lemma_trailing_count(s@, q);
    }
    let r = copy_range(&s, 0, s.len() - b);
    assert(r@ =~= trim_quotes(v@));
    r
}

/// The value of `field: value` on a front-matter line, if it has a non-empty one.
pub fn strip_field(line: &str, field: &str) -> (r: Option<String>)
    ensures
        match field_value(line@, field@) {
            Some(v) => r is Some && r->0@ == v,
            None => r is None,
        },
{
    let t = trim_chars(&chars_of(line));
    let mut pre = chars_of(field);
    push_str(&mut pre, ":");
    if !starts_with_chars(&t, &pre) {
        return None;
    }
    let after = copy_range(&t, pre.len(), t.len());
    assert(after@ =~= t@.skip(pre@.len() as int));
    let v = trim_quotes_exec(&trim_chars(&after));
    if v.len() > 0 {
        Some(string_from_chars(v.as_slice()))
    } else {
        None
    }
}

fn first_field_exec(ls: &Vec<Vec<char>>, field: &str) -> (r: Option<String>)
    ensures
        match first_field(ls@.map_values(|x: Vec<char>| x@), field@) {
            Some(v) => r is Some && r->0@ == v,
            None => r is None,
        },
{
    let ghost all = ls@.map_values(|x: Vec<char>| x@);
    let mut i: usize = 0;
    assert(all.skip(0) =~= all);
    while i < ls.len()
        invariant
            i <= ls.len(),
            all == ls@.map_values(|x: Vec<char>| x@),
            first_field(all, field@) == first_field(all.skip(i as int), field@),
        decreases ls.len() - i,
    {
        let line = string_from_chars(ls[i].as_slice());
        let f = strip_field(line.as_str(), field);
        assert(all.skip(i as int)[0] == ls@[i as int]@);
        assert(all.skip(i as int).drop_first() =~= all.skip(i + 1));
        if f.is_some() {
            return f;
        }
        i = i + 1;
    }
    assert(all.skip(i as int) =~= Seq::<Seq<char>>::empty());
    None
}

fn first_nonblank_exec(ls: &Vec<Vec<char>>) -> (r: Vec<char>)
    ensures
        r@ == first_nonblank(ls@.map_values(|x: Vec<char>| x@)),
{
    let ghost all = ls@.map_values(|x: Vec<char>| x@);
    let mut i: usize = 0;
    assert(all.skip(0) =~= all);
    while i < ls.len()
        invariant
            i <= ls.len(),
            all == ls@.map_values(|x: Vec<char>| x@),
            first_nonblank(all) == first_nonblank(all.skip(i as int)),
        decreases ls.len() - i,
    {
        assert(all.skip(i as int)[0] == ls@[i as int]@);
        assert(all.skip(i as int).drop_first() =~= all.skip(i + 1));
        if trim_chars(&ls[i]).len() > 0 {
            return copy_range(&ls[i], 0, ls[i].len());
        }
        i = i + 1;
    }
    assert(all.skip(i as int) =~= Seq::<Seq<char>>::empty());
    Vec::new()
}

fn fallback_name_exec(path: &str) -> (r: String)
    ensures
        r@ == fallback_name(path@),
{
    match parent_of(path) {
        Some(d) => match file_name_of(d.as_str()) {
            Some(n) => n,
            None => to_owned_string("unnamed"),
        },
        None => to_owned_string("unnamed"),
    }
}

/// Reads a SKILL.md's name and description from its front matter, falling back
/// to the directory's name and the first line.
pub fn parse_frontmatter(raw: &str, path: &str) -> (r: (String, String))
    ensures
        r.0@ == frontmatter(raw@, path@).0,
        r.1@ == frontmatter(raw@, path@).1,
{
    let fallback = fallback_name_exec(path);
    let all = chars_of(raw);
    let t = trim_start_chars(&all);
    let dashes = chars_of("---");
    proof {
        reveal_strlit("---");
    }
    if starts_with_chars(&t, &dashes) {
        let rest = copy_range(&t, 3, t.len());
        assert(rest@ =~= t@.skip(3));
        match find_chars(&rest, &chars_of("\n---"), 0) {
            Some(end) => {
                proof {
                    lemma_find_from(rest@, "\n---"@, 0);
                }
                let fm = copy_range(&rest, 0, end);
                assert(fm@ =~= rest@.take(end as int));
                let ls = lines_exec(&fm);
                let name = match first_field_exec(&ls, "name") {
                    Some(n) => n,
                    None => fallback,
                };
                let description = match first_field_exec(&ls, "description") {
                    Some(d) => d,
                    None => String::new(),
                };
                return (name, description);
            },
            None => {},
        }
    }
    let ls = lines_exec(&all);
    let first = first_nonblank_exec(&ls);
    let ghost hp = |c: char| c == '#';
    let mut k: usize = 0;
    assert(first@.skip(0) =~= first@);
    while k < first.len() && first[k] == '#'
        invariant
            k <= first.len(),
            hp == (|c: char| c == '#'),
            leading_count(first@, hp) == k + leading_count(first@.skip(k as int), hp),
        decreases first.len() - k,
    {
        assert(first@.skip(k as int).drop_first() =~= first@.skip(k + 1));
        k = k + 1;
    }
    proof {
        lemma_leading_count(first@, hp);
    }
    let stripped = copy_range(&first, k, first.len());
    assert(stripped@ =~= trim_hashes(first@));
    let desc = trim_chars(&stripped);
    (fallback, string_from_chars(desc.as_slice()))
}


/// The heading of the skill index.
pub open spec fn index_heading() -> Seq<char> {
    "可用技能（SKILLS）：当用户需求与某技能相关时，先用 load_skill 加载其完整内容并严格遵循。\n"@
}

/// One skill's line in the index.
pub open spec fn index_line(s: Skill) -> Seq<char> {
    "- "@ + s.name@ + ": "@ + s.description@ + "\n"@
}

/// The lines of the first `n` skills, concatenated.
pub open spec fn index_lines(skills: Seq<Skill>) -> Seq<char>
    decreases skills.len(),
{
    if skills.len() == 0 {
        Seq::empty()
    } else {
        index_lines(skills.drop_last()) + index_line(skills.last())
    }
}

/// The skill index injected into the system instruction: empty without skills,
/// else the heading and one "- name: description" line per skill, in order.
pub open spec fn index_text(skills: Seq<Skill>) -> Seq<char> {
    if skills.len() == 0 {
        Seq::empty()
    } else {
        index_heading() + index_lines(skills)
    }
}

/// The skill index text for the system instruction.
pub fn index_for_instruction(skills: &Vec<Skill>) -> (r: String)
    ensures
        r@ == index_text(skills@),
{
    if skills.len() == 0 {
        return String::new();
    }
    let mut out: Vec<char> = Vec::new();
    push_str(&mut out, "可用技能（SKILLS）：当用户需求与某技能相关时，先用 load_skill 加载其完整内容并严格遵循。\n");
    let ghost head = out@;
    let mut i: usize = 0;
    assert(skills@.take(0) =~= Seq::<Skill>::empty());
    while i < skills.len()
        invariant
            i <= skills.len(),
            out@ == head + index_lines(skills@.take(i as int)),
        decreases skills.len() - i,
    {
        let ghost before = out@;
        push_str(&mut out, "- ");
        push_chars(&mut out, &chars_of(skills[i].name.as_str()));
        push_str(&mut out, ": ");
        push_chars(&mut out, &chars_of(skills[i].description.as_str()));
        push_str(&mut out, "\n");
        proof {
            assert(skills@.take(i + 1).drop_last() =~= skills@.take(i as int));
            assert(skills@.take(i + 1).last() == skills@[i as int]);
            assert(out@ =~= before + index_line(skills@[i as int]));
            assert(head + index_lines(skills@.take(i as int)) + index_line(skills@[i as int]) =~= head
                + (index_lines(skills@.take(i as int)) + index_line(skills@[i as int])));
        }
        i = i + 1;
    }
    assert(skills@.take(i as int) =~= skills@);
    string_from_chars(out.as_slice())
}

/// The position of the first skill named `name`.
pub fn find_skill(skills: &Vec<Skill>, name: &str) -> (r: Option<usize>)
    ensures
        match r {
            Some(i) => i < skills@.len() && skills@[i as int].name@ == name@ && forall|j: int|
                0 <= j < i ==> skills@[j].name@ != name@,
            None => forall|j: int| 0 <= j < skills@.len() ==> skills@[j].name@ != name@,
        },
{
    let mut i: usize = 0;
    while i < skills.len()
        invariant
            i <= skills.len(),
            forall|j: int| 0 <= j < i ==> skills@[j].name@ != name@,
        decreases skills.len() - i,
    {
        if str_eq(skills[i].name.as_str(), name) {
            return Some(i);
        }
        i = i + 1;
    }
    None
}


impl Skill {
    /// A copy of the skill.
    pub fn duplicate(&self) -> (r: Self)
        ensures
            r == *self,
    {
        Skill { name: self.name.clone(), description: self.description.clone(), path: self.path.clone() }
    }
}

/// Skill `i` comes before skill `j`: its name is smaller, or the names are equal
/// and it came first.
pub open spec fn name_before(skills: Seq<Skill>, i: int, j: int) -> bool {
    lex_lt(skills[i].name@, skills[j].name@) || (skills[i].name@ == skills[j].name@ && i < j)
}

/// `order` lists positions of `skills` so that names ascend and skills with
/// equal names keep their order.
pub open spec fn in_name_order(skills: Seq<Skill>, order: Seq<usize>) -> bool {
    forall|k: int, l: int|
        0 <= k < l < order.len() ==> name_before(skills, #[trigger] order[k] as int, #[trigger] order[l] as int)
}

/// Position `x` occurs in `order`.
pub open spec fn lists(order: Seq<usize>, x: int) -> bool {
    exists|k: int| 0 <= k < order.len() && #[trigger] order[k] == x
}

/// `order` lists every position of `skills`, each once, in name order: the
/// order a stable sort by name gives.
pub open spec fn stable_name_order(skills: Seq<Skill>, order: Seq<usize>) -> bool {
    &&& order.len() == skills.len()
    &&& forall|k: int| 0 <= k < order.len() ==> #[trigger] order[k] < skills.len()
    &&& forall|x: int| 0 <= x < skills.len() ==> #[trigger] lists(order, x)
    &&& in_name_order(skills, order)
}

proof fn lemma_insert_keeps_order(skills: Seq<Skill>, o: Seq<usize>, p: int, i: usize)
    requires
        in_name_order(skills, o),
        i < skills.len(),
        forall|k: int| 0 <= k < o.len() ==> #[trigger] o[k] < i,
        0 <= p <= o.len(),
        forall|q: int| 0 <= q < p ==> !lex_lt(skills[i as int].name@, #[trigger] skills[o[q] as int].name@),
        p < o.len() ==> lex_lt(skills[i as int].name@, skills[o[p] as int].name@),
    ensures
        in_name_order(skills, o.insert(p, i)),
{
    let n = o.insert(p, i);
    let ni = skills[i as int].name@;
    assert forall|k: int, l: int| 0 <= k < l < n.len() implies name_before(
        skills,
        #[trigger] n[k] as int,
        #[trigger] n[l] as int,
    ) by {
        if l < p {
            assert(n[k] == o[k] && n[l] == o[l]);
        } else if k > p {
            assert(n[k] == o[k - 1] && n[l] == o[l - 1]);
        } else if k < p && l > p {
            assert(n[k] == o[k] && n[l] == o[l - 1]);
        } else if l == p {
            assert(n[k] == o[k] && n[l] == i);
            let nk = skills[o[k] as int].name@;
            assert(!lex_lt(ni, nk));
            lemma_lex_total(nk, ni);
        } else {
            assert(k == p);
            assert(n[k] == i && n[l] == o[l - 1]);
            let np = skills[o[p] as int].name@;
            let nl = skills[o[l - 1] as int].name@;
            if l - 1 > p {
                assert(name_before(skills, o[p] as int, o[l - 1] as int));
                if lex_lt(np, nl) {
                    lemma_lex_transitive(ni, np, nl);
                }
            }
        }
    }
}

/// The skills sorted by name; skills with equal names keep their order.
pub fn sort_by_name(skills: &Vec<Skill>) -> (r: Vec<Skill>)
    ensures
        exists|order: Seq<usize>|
            stable_name_order(skills@, order) && r@.len() == order.len() && forall|k: int|
                0 <= k < order.len() ==> #[trigger] r@[k] == skills@[order[k] as int],
{
    let mut names: Vec<Vec<char>> = Vec::new();
    let mut j: usize = 0;
    while j < skills.len()
        invariant
            j <= skills.len(),
            names@.len() == j,
            forall|x: int| 0 <= x < j ==> #[trigger] names@[x]@ == skills@[x].name@,
        decreases skills.len() - j,
    {
        names.push(chars_of(skills[j].name.as_str()));
        j = j + 1;
    }
    let mut ord: Vec<usize> = Vec::new();
    let mut i: usize = 0;
    while i < skills.len()
        invariant
            i <= skills.len(),
            names@.len() == skills@.len(),
            forall|x: int| 0 <= x < skills.len() ==> #[trigger] names@[x]@ == skills@[x].name@,
            ord@.len() == i,
            forall|k: int| 0 <= k < ord@.len() ==> #[trigger] ord@[k] < i,
            forall|x: int| 0 <= x < i ==> #[trigger] lists(ord@, x),
            in_name_order(skills@, ord@),
        decreases skills.len() - i,
    {
        let mut p: usize = 0;
        while p < ord.len() && !lex_lt_chars(&names[i], &names[ord[p]])
            invariant
                p <= ord@.len(),
                i < skills.len(),
                names@.len() == skills@.len(),
                forall|x: int| 0 <= x < skills.len() ==> #[trigger] names@[x]@ == skills@[x].name@,
                forall|k: int| 0 <= k < ord@.len() ==> #[trigger] ord@[k] < i,
                forall|q: int|
                    0 <= q < p ==> !lex_lt(skills@[i as int].name@, #[trigger] skills@[ord@[q] as int].name@),
            decreases ord@.len() - p,
        {
            p = p + 1;
        }
        let ghost o = ord@;
        proof {
            if p < ord@.len() {
                assert(lex_lt(names@[i as int]@, names@[ord@[p as int] as int]@));
            }
            lemma_insert_keeps_order(skills@, o, p as int, i);
        }
        ord.insert(p, i);
        proof {
            assert(ord@ == o.insert(p as int, i));
            assert forall|k: int| 0 <= k < ord@.len() implies #[trigger] ord@[k] < i + 1 by {
                if k < p {
                    assert(ord@[k] == o[k]);
                } else if k > p {
                    assert(ord@[k] == o[k - 1]);
                }
            }
            assert forall|x: int| 0 <= x < i + 1 implies #[trigger] lists(ord@, x) by {
                if x == i {
                    assert(ord@[p as int] == x);
                } else {
                    assert(lists(o, x));
                    let k0 = choose|k: int| 0 <= k < o.len() && #[trigger] o[k] == x;
                    if k0 < p {
                        assert(ord@[k0] == x);
                    } else {
                        assert(ord@[k0 + 1] == x);
                    }
                }
            }
        }
        i = i + 1;
    }
    assert(stable_name_order(skills@, ord@));
    let mut r: Vec<Skill> = Vec::new();
    let mut k: usize = 0;
    while k < ord.len()
        invariant
            stable_name_order(skills@, ord@),
            k <= ord@.len(),
            ord@.len() == skills@.len(),
            forall|m: int| 0 <= m < ord@.len() ==> #[trigger] ord@[m] < skills@.len(),
            r@.len() == k,
            forall|m: int| 0 <= m < k ==> #[trigger] r@[m] == skills@[ord@[m] as int],
        decreases ord@.len() - k,
    {
        r.push(skills[ord[k]].duplicate());
        k = k + 1;
    }
    assert(r@.len() == ord@.len() && forall|m: int| 0 <= m < ord@.len() ==> #[trigger] r@[m] == skills@[ord@[m] as int]);
    r
}

} // verus!
