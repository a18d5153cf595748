//! Local long-term memory: entries, their recall by keywords, and removal.
use vstd::prelude::*;
use crate::text::{
    char_is_alphanumeric, chars_of, contains_chars, contains_seq, occurs_at, is_alnum, lowercase,
    lowercase_chars, push_chars, push_str, str_eq, string_from_chars, to_owned_string, lines,
    lines_exec, split_newlines, strip_cr, trim, trim_chars, lemma_split_newlines_len, leading_count, white_pred, trim_start,
};

verus! {

broadcast use vstd::string::group_string_axioms;

/// A fresh random (version 4) UUID in its hyphenated text form (uuid's `Uuid::new_v4`).
/// Only the layout is stated: 36 characters, hyphens at positions 8, 13, 18 and 23;
/// the value is random.
#[verifier::external_body]
pub fn uuid_v4() -> (r: String)
    ensures
        r@.len() == 36,
        r@[8] == '-' && r@[13] == '-' && r@[18] == '-' && r@[23] == '-',
{
    uuid::Uuid::new_v4().to_string()
}

/// The current UTC time as RFC 3339 text with whole seconds and a `Z` suffix
/// (chrono's `Utc::now` and `to_rfc3339_opts`). Nothing is stated of the value: it is the clock's.
#[verifier::external_body]
pub(crate) fn now_rfc3339() -> (r: String) {
    chrono::Utc::now().to_rfc3339_opts(chrono::SecondsFormat::Secs, true)
}


/// One remembered item.
pub struct MemoryEntry {
    pub id: String,
    /// RFC 3339 time stamp.
    pub ts: String,
    /// user | preference | fact | task | other
    pub category: String,
    pub content: String,
    pub tags: Vec<String>,
}

/// An entry as plain text values.
pub struct MemoryEntryView {
    pub id: Seq<char>,
    pub ts: Seq<char>,
    pub category: Seq<char>,
    pub content: Seq<char>,
    pub tags: Seq<Seq<char>>,
}

impl View for MemoryEntry {
    type V = MemoryEntryView;

    open spec fn view(&self) -> MemoryEntryView {
        MemoryEntryView {
            id: self.id@,
            ts: self.ts@,
            category: self.category@,
            content: self.content@,
            tags: self.tags@.map_values(|t: String| t@),
        }
    }
}

impl MemoryEntry {
    /// A copy of the entry.
    pub fn duplicate(&self) -> (r: Self)
        ensures
            r@ == self@,
    {
        let mut tags: Vec<String> = Vec::new();
        let mut i: usize = 0;
        while i < self.tags.len()
            invariant
                i <= self.tags.len(),
                tags@ == self.tags@.take(i as int),
            decreases self.tags.len() - i,
        {
            tags.push(self.tags[i].clone());
            assert(tags@ =~= self.tags@.take(i + 1));
            i = i + 1;
        }
        assert(tags@ =~= self.tags@);
        MemoryEntry {
            id: self.id.clone(),
            ts: self.ts.clone(),
            category: self.category.clone(),
            content: self.content.clone(),
            tags,
        }
    }
}

/// Characters that belong to a recall keyword: alphanumerics, '_' and CJK ideographs.
pub open spec fn keyword_char(c: char) -> bool {
    is_alnum(c) || c == '_' || ('\u{4e00}' <= c && c <= '\u{9fff}')
}

/// The runs of keyword characters of `s` that split at every other character
/// (as std's `str::split` with that predicate: empty runs included).
pub open spec fn keyword_pieces(s: Seq<char>) -> Seq<Seq<char>>
    decreases s.len(),
{
    if s.len() == 0 {
        seq![Seq::<char>::empty()]
    } else {
        let r = keyword_pieces(s.drop_last());
        if !keyword_char(s.last()) {
            r.push(Seq::<char>::empty())
        } else {
            r.update(r.len() - 1, r.last().push(s.last()))
        }
    }
}

pub proof fn lemma_keyword_pieces_len(s: Seq<char>)
    ensures
        keyword_pieces(s).len() >= 1,
    decreases s.len(),
{
    if s.len() > 0 {
        lemma_keyword_pieces_len(s.drop_last());
    }
}

/// The non-empty pieces, lower-cased, in order.
pub open spec fn nonempty_lowered(ps: Seq<Seq<char>>) -> Seq<Seq<char>>
    decreases ps.len(),
{
    if ps.len() == 0 {
        Seq::empty()
    } else {
        nonempty_lowered(ps.drop_last()) + if ps.last().len() > 0 {
            seq![lowercase(ps.last())]
        } else {
            Seq::empty()
        }
    }
}

/// The recall keywords of a query.
pub open spec fn keywords(query: Seq<char>) -> Seq<Seq<char>> {
    nonempty_lowered(keyword_pieces(query))
}

/// `parts` joined with single spaces.
pub open spec fn join_spaces(parts: Seq<Seq<char>>) -> Seq<char>
    decreases parts.len(),
{
    if parts.len() == 0 {
        Seq::empty()
    } else if parts.len() == 1 {
        parts[0]
    } else {
        join_spaces(parts.drop_last()) + " "@ + parts.last()
    }
}

/// The text an entry is matched against: its content and tags, lower-cased.
pub open spec fn entry_text(e: MemoryEntry) -> Seq<char> {
    lowercase(e.content@ + " "@ + join_spaces(e.tags@.map_values(|t: String| t@)))
}

/// How many of the keywords (counted with repeats) occur in `text`.
pub open spec fn matched_count(text: Seq<char>, kws: Seq<Seq<char>>) -> nat
    decreases kws.len(),
{
    if kws.len() == 0 {
        0
    } else {
        matched_count(text, kws.drop_last()) + if contains_seq(text, kws.last()) {
            1nat
        } else {
            0nat
        }
    }
}

/// Whether an entry is a recall candidate: in the category (any when empty), and
/// matching some keyword (every entry matches when there are no keywords).
pub open spec fn recall_keeps(e: MemoryEntry, kws: Seq<Seq<char>>, category: Seq<char>) -> bool {
    (category.len() == 0 || e.category@ == category) && (kws.len() == 0 || matched_count(
        entry_text(e),
        kws,
    ) > 0)
}

/// A recall candidate: the entry's position and how many keywords it matched.
pub struct RecallCandidate {
    pub index: usize,
    pub matched: usize,
}

/// The candidates among `entries`, in order.
pub open spec fn candidates(entries: Seq<MemoryEntry>, kws: Seq<Seq<char>>, category: Seq<char>) -> Seq<
    (int, nat),
>
    decreases entries.len(),
{
    if entries.len() == 0 {
        Seq::empty()
    } else {
        let n = entries.len() - 1;
        candidates(entries.drop_last(), kws, category) + if recall_keeps(
            entries.last(),
            kws,
            category,
        ) {
            seq![(n, matched_count(entry_text(entries.last()), kws))]
        } else {
            Seq::empty()
        }
    }
}

proof fn lemma_candidates_indices(entries: Seq<MemoryEntry>, kws: Seq<Seq<char>>, category: Seq<char>)
    ensures
        forall|k: int|
            0 <= k < candidates(entries, kws, category).len() ==> {
                let c = #[trigger] candidates(entries, kws, category)[k];
                &&& 0 <= c.0 < entries.len()
                &&& recall_keeps(entries[c.0], kws, category)
                &&& c.1 == matched_count(entry_text(entries[c.0]), kws)
            },
    decreases entries.len(),
{
    if entries.len() > 0 {
        let init = entries.drop_last();
        lemma_candidates_indices(init, kws, category);
        assert forall|k: int| 0 <= k < candidates(entries, kws, category).len() implies {
            let c = #[trigger] candidates(entries, kws, category)[k];
            &&& 0 <= c.0 < entries.len()
            &&& recall_keeps(entries[c.0], kws, category)
            &&& c.1 == matched_count(entry_text(entries[c.0]), kws)
        } by {
            let pre = candidates(init, kws, category);
            if k < pre.len() {
                assert(candidates(entries, kws, category)[k] == pre[k]);
                assert(entries[pre[k].0] == init[pre[k].0]);
            }
        }
    }
}

/// Law of forgetting: forgetting the id of an entry just added, when no other
/// entry had that id, gives back exactly the entries held before the add.
pub proof fn law_forget_undoes_add(entries: Seq<MemoryEntry>, e: MemoryEntry)
    requires
        forall|j: int| 0 <= j < entries.len() ==> #[trigger] entries[j].id@ != e.id@,
    ensures
        entries.push(e).filter(|x: MemoryEntry| x.id@ != e.id@) == entries,
    decreases entries.len(),
{
    let pred = |x: MemoryEntry| x.id@ != e.id@;
    reveal(Seq::filter);
    assert(entries.push(e).drop_last() =~= entries);
    lemma_filter_keeps_all(entries, pred);
}

proof fn lemma_filter_keeps_all(entries: Seq<MemoryEntry>, pred: spec_fn(MemoryEntry) -> bool)
    requires
        forall|j: int| 0 <= j < entries.len() ==> pred(#[trigger] entries[j]),
    ensures
        entries.filter(pred) == entries,
    decreases entries.len(),
{
    reveal(Seq::filter);
    if entries.len() > 0 {
        let init = entries.drop_last();
        assert forall|j: int| 0 <= j < init.len() implies pred(#[trigger] init[j]) by {
            assert(init[j] == entries[j]);
        }
        lemma_filter_keeps_all(init, pred);
        assert(init.push(entries.last()) =~= entries);
    }
}

/// Law of recall after forgetting: once an id is forgotten, no recall, whatever
/// its query or category, returns an entry with that id; and every candidate
/// that recall returns lies in the category and matches (or the query has no keywords).
pub proof fn law_forgotten_never_recalled(
    entries: Seq<MemoryEntry>,
    id: Seq<char>,
    kws: Seq<Seq<char>>,
    category: Seq<char>,
)
    ensures
        ({
            let left = entries.filter(|x: MemoryEntry| x.id@ != id);
            let cs = candidates(left, kws, category);
            forall|k: int|
                0 <= k < cs.len() ==> {
                    let c = #[trigger] cs[k];
                    &&& left[c.0].id@ != id
                    &&& category.len() == 0 || left[c.0].category@ == category
                    &&& kws.len() == 0 || c.1 > 0
                }
        }),
{
    let pred = |x: MemoryEntry| x.id@ != id;
    let left = entries.filter(pred);
    lemma_candidates_indices(left, kws, category);
    broadcast use vstd::seq_lib::group_filter_ensures;
    assert forall|k: int| 0 <= k < candidates(left, kws, category).len() implies {
        let c = #[trigger] candidates(left, kws, category)[k];
        &&& left[c.0].id@ != id
        &&& category.len() == 0 || left[c.0].category@ == category
        &&& kws.len() == 0 || c.1 > 0
    } by {
        let c = candidates(left, kws, category)[k];
        assert(pred(left[c.0]));
    }
}

/// What recall scores and ranks: the number of keywords, and the candidates.
pub struct RecallPlan {
    pub keyword_count: usize,
    pub candidates: Vec<RecallCandidate>,
}

fn is_keyword_char(c: char) -> (r: bool)
    ensures
        r == keyword_char(c),
{
    char_is_alphanumeric(c) || c == '_' || ('\u{4e00}' <= c && c <= '\u{9fff}')
}

/// The recall keywords of a query: its runs of alphanumerics, '_' and CJK
/// ideographs, lower-cased.
pub fn query_keywords(query: &str) -> (r: Vec<Vec<char>>)
    ensures
        r@.map_values(|k: Vec<char>| k@) == keywords(query@),
{
    let s = chars_of(query);
    let mut out: Vec<Vec<char>> = Vec::new();
    let mut cur: Vec<char> = Vec::new();
    let mut i: usize = 0;
    assert(s@.take(0) =~= Seq::<char>::empty());
    assert(out@.map_values(|k: Vec<char>| k@) =~= Seq::<Seq<char>>::empty());
    while i < s.len()
        invariant
            s@ == query@,
            i <= s.len(),
            keyword_pieces(s@.take(i as int)).len() >= 1,
            cur@ == keyword_pieces(s@.take(i as int)).last(),
            out@.map_values(|k: Vec<char>| k@) == nonempty_lowered(
                keyword_pieces(s@.take(i as int)).drop_last(),
            ),
        decreases s.len() - i,
    {
        let c = s[i];
        let ghost p = keyword_pieces(s@.take(i as int));
        let ghost o = out@.map_values(|k: Vec<char>| k@);
        proof {
            assert(s@.take(i + 1).drop_last() =~= s@.take(i as int));
            assert(s@.take(i + 1).last() == c);
        }
        if !is_keyword_char(c) {
            if cur.len() > 0 {
                let low = lowercase_chars(&cur);
                out.push(low);
                assert(out@.map_values(|k: Vec<char>| k@) =~= o.push(low@));
            }
            cur = Vec::new();
            proof {
                let q = keyword_pieces(s@.take(i + 1));
                assert(q == p.push(Seq::<char>::empty()));
                assert(q.drop_last() =~= p);
                assert(p.drop_last().push(p.last()) =~= p);
                assert(nonempty_lowered(p) == nonempty_lowered(p.drop_last()) + if p.last().len() > 0 {
                    seq![lowercase(p.last())]
                } else {
                    Seq::<Seq<char>>::empty()
                });
                assert(out@.map_values(|k: Vec<char>| k@) =~= nonempty_lowered(q.drop_last()));
            }
        } else {
            cur.push(c);
            proof {
                let q = keyword_pieces(s@.take(i + 1));
                assert(q == p.update(p.len() - 1, p.last().push(c)));
                assert(q.drop_last() =~= p.drop_last());
            }
        }
        i = i + 1;
    }
    assert(s@.take(i as int) =~= s@);
    let ghost p = keyword_pieces(s@);
    let ghost o = out@.map_values(|k: Vec<char>| k@);
    if cur.len() > 0 {
        let low = lowercase_chars(&cur);
        out.push(low);
        assert(out@.map_values(|k: Vec<char>| k@) =~= o.push(low@));
    }
    proof {
        assert(p.drop_last().push(p.last()) =~= p);
        assert(nonempty_lowered(p) == nonempty_lowered(p.drop_last()) + if p.last().len() > 0 {
            seq![lowercase(p.last())]
        } else {
            Seq::<Seq<char>>::empty()
        });
        assert(out@.map_values(|k: Vec<char>| k@) =~= keywords(query@));
    }
    out
}

fn entry_text_exec(e: &MemoryEntry) -> (r: Vec<char>)
    ensures
        r@ == entry_text(*e),
{
    let mut t = chars_of(e.content.as_str());
    push_str(&mut t, " ");
    let ghost tags = e.tags@.map_values(|x: String| x@);
    let ghost pre = t@;
    let mut i: usize = 0;
    assert(tags.take(0) =~= Seq::<Seq<char>>::empty());
    while i < e.tags.len()
        invariant
            i <= e.tags.len(),
            tags == e.tags@.map_values(|x: String| x@),
            t@ == pre + join_spaces(tags.take(i as int)),
        decreases e.tags.len() - i,
    {
        let ghost before = t@;
        if i > 0 {
            push_str(&mut t, " ");
        }
        push_chars(&mut t, &chars_of(e.tags[i].as_str()));
        proof {
            let a = tags.take(i + 1);
            assert(a.drop_last() =~= tags.take(i as int));
            assert(a.last() == tags[i as int]);
            if i == 0 {
                assert(a =~= seq![tags[0]]);
                assert(join_spaces(a) == tags[0]);
                assert(join_spaces(tags.take(0)) =~= Seq::<char>::empty());
                assert(t@ =~= pre + join_spaces(a));
            } else {
                assert(t@ =~= pre + join_spaces(a));
            }
        }
        i = i + 1;
    }
    assert(tags.take(i as int) =~= tags);
    lowercase_chars(&t)
}

fn matched_count_exec(text: &Vec<char>, kws: &Vec<Vec<char>>) -> (r: usize)
    ensures
        r == matched_count(text@, kws@.map_values(|k: Vec<char>| k@)),
{
    let ghost ks = kws@.map_values(|k: Vec<char>| k@);
    let mut n: usize = 0;
    let mut i: usize = 0;
    assert(ks.take(0) =~= Seq::<Seq<char>>::empty());
    while i < kws.len()
        invariant
            i <= kws.len(),
            ks == kws@.map_values(|k: Vec<char>| k@),
            n == matched_count(text@, ks.take(i as int)),
            n <= i,
        decreases kws.len() - i,
    {
        assert(ks.take(i + 1).drop_last() =~= ks.take(i as int));
        assert(ks.take(i + 1).last() == kws@[i as int]@);
        if contains_chars(text, &kws[i]) {
            n = n + 1;
        }
        i = i + 1;
    }
    assert(ks.take(i as int) =~= ks);
    n
}

/// The in-memory collection of entries, oldest first.
pub struct MemoryStore {
    entries: Vec<MemoryEntry>,
}

impl View for MemoryStore {
    type V = Seq<MemoryEntry>;

    closed spec fn view(&self) -> Seq<MemoryEntry> {
        self.entries@
    }
}

impl MemoryStore {
    /// A store holding `entries`, oldest first.
    pub fn from_entries(entries: Vec<MemoryEntry>) -> (r: Self)
        ensures
            r@ == entries@,
    {
        MemoryStore { entries }
    }

    /// A new entry with a fresh id and the current time; an empty category becomes "other".
    pub fn new_entry(category: &str, content: &str, tags: &Vec<String>) -> (r: MemoryEntry)
        ensures
            r.category@ == if category@.len() == 0 { "other"@ } else { category@ },
            r.content@ == content@,
            r.tags@ == tags@,
            r.id@.len() == 36,
    {
        let mut t: Vec<String> = Vec::new();
        let mut i: usize = 0;
        while i < tags.len()
            invariant
                i <= tags.len(),
                t@ == tags@.take(i as int),
            decreases tags.len() - i,
        {
            t.push(tags[i].clone());
            assert(t@ =~= tags@.take(i + 1));
            i = i + 1;
        }
        assert(t@ =~= tags@);
        MemoryEntry {
            id: uuid_v4(),
            ts: now_rfc3339(),
            category: if category.is_empty() {
                to_owned_string("other")
            } else {
                to_owned_string(category)
            },
            content: to_owned_string(content),
            tags: t,
        }
    }

    /// Adds an entry at the end.
    pub fn push(&mut self, entry: MemoryEntry)
        ensures
            final(self)@ == old(self)@.push(entry),
    {
        self.entries.push(entry);
    }

    /// All entries, oldest first.
    pub fn entries(&self) -> (r: &Vec<MemoryEntry>)
        ensures
            r@ == self@,
    {
        &self.entries
    }

    /// Removes every entry with id `id`; tells whether one was removed.
    pub fn forget(&mut self, id: &str) -> (r: bool)
        ensures
            final(self)@ == old(self)@.filter(|e: MemoryEntry| e.id@ != id@),
            r == exists|j: int| 0 <= j < old(self)@.len() && #[trigger] old(self)@[j].id@ == id@,
    {
        let ghost pred = |e: MemoryEntry| e.id@ != id@;
        let ghost all = self.entries@;
        let mut rest: Vec<MemoryEntry> = Vec::new();
        std::mem::swap(&mut rest, &mut self.entries);
        assert(rest@ == all);
        assert(all.len() == rest.len());
        let mut kept: Vec<MemoryEntry> = Vec::new();
        let mut taken: usize = 0;
        let mut removed = false;
        proof {
            assert(all.take(0).filter(pred) =~= Seq::<MemoryEntry>::empty()) by {
                reveal(Seq::filter);
            }
            assert(all.skip(0) =~= all);
        }
        while rest.len() > 0
            invariant
                taken + rest@.len() == all.len(),
                all.len() <= usize::MAX,
                pred == (|e: MemoryEntry| e.id@ != id@),
                rest@ == all.skip(taken as int),
                kept@ == all.take(taken as int).filter(pred),
                removed == exists|j: int| 0 <= j < taken && #[trigger] all[j].id@ == id@,
            decreases rest.len(),
        {
            let e = rest.remove(0);
            let ghost ev = e;
            let same = str_eq(e.id.as_str(), id);
            let ghost before = kept@;
            if !same {
                kept.push(e);
            } else {
                removed = true;
            }
            proof {
                assert(ev == all[taken as int]);
                assert(rest@ =~= all.skip(taken + 1));
                assert(all.take(taken + 1).drop_last() =~= all.take(taken as int));
                assert(all.take(taken + 1).last() == ev);
                reveal(Seq::filter);
                assert(all.take(taken + 1).filter(pred) == if pred(ev) {
                    all.take(taken as int).filter(pred).push(ev)
                } else {
                    all.take(taken as int).filter(pred)
                });
                if same {
                    assert(all[taken as int].id@ == id@);
                }
            }
            taken = taken + 1;
        }
        assert(all.take(taken as int) =~= all);
        self.entries = kept;
        removed
    }

    /// The newest `limit` entries, newest first.
    pub fn list(&self, limit: usize) -> (r: Vec<MemoryEntry>)
        ensures
            r@.len() == if limit < self@.len() { limit as int } else { self@.len() as int },
            forall|k: int| 0 <= k < r@.len() ==> #[trigger] r@[k]@ == self@[self@.len() - 1 - k]@,
    {
        let mut r: Vec<MemoryEntry> = Vec::new();
        let n = self.entries.len();
        let mut k: usize = 0;
        while k < n && k < limit
            invariant
                n == self.entries@.len(),
                k <= n,
                k <= limit,
                r@.len() == k,
                forall|j: int| 0 <= j < k ==> #[trigger] r@[j]@ == self.entries@[n - 1 - j]@,
            decreases n - k,
        {
            r.push(self.entries[n - 1 - k].duplicate());
            k = k + 1;
        }
        r
    }

    /// The keyword count and the candidates for recalling `query` in `category`
    /// (any category when empty): an entry is a candidate when it matches some
    /// keyword, or always when the query has no keywords. Scoring by match ratio
    /// and age, ranking and cutting to a limit work on these.
    pub fn recall_plan(&self, query: &str, category: &str) -> (r: RecallPlan)
        ensures
            r.keyword_count == keywords(query@).len(),
            r.candidates@.map_values(|c: RecallCandidate| (c.index as int, c.matched as nat))
                == candidates(self@, keywords(query@), category@),
    {
        let kws = query_keywords(query);
        let ghost ks = kws@.map_values(|k: Vec<char>| k@);
        let mut out: Vec<RecallCandidate> = Vec::new();
        let mut i: usize = 0;
        assert(self.entries@.take(0) =~= Seq::<MemoryEntry>::empty());
        while i < self.entries.len()
            invariant
                i <= self.entries.len(),
                ks == kws@.map_values(|k: Vec<char>| k@),
                ks == keywords(query@),
                out@.map_values(|c: RecallCandidate| (c.index as int, c.matched as nat))
                    == candidates(self.entries@.take(i as int), ks, category@),
            decreases self.entries.len() - i,
        {
            let e = &self.entries[i];
            let in_category = category.is_empty() || str_eq(e.category.as_str(), category);
            let ghost o = out@.map_values(|c: RecallCandidate| (c.index as int, c.matched as nat));
            proof {
                let a = self.entries@.take(i + 1);
                assert(a.drop_last() =~= self.entries@.take(i as int));
                assert(a.last() == *e);
            }
            if in_category {
                let text = entry_text_exec(e);
                let m = matched_count_exec(&text, &kws);
                if kws.len() == 0 || m > 0 {
                    out.push(RecallCandidate { index: i, matched: m });
                    assert(out@.map_values(|c: RecallCandidate| (c.index as int, c.matched as nat))
                        =~= o.push((i as int, m as nat)));
                }
            }
            i = i + 1;
        }
        assert(self.entries@.take(i as int) =~= self.entries@);
        RecallPlan { keyword_count: kws.len(), candidates: out }
    }
}


/// How many hits a recall returns: the requested limit (5 when not given), at least one.
pub fn recall_limit(requested: Option<u64>) -> (r: u64)
    ensures
        r == match requested {
            Some(n) => if n < 1 { 1 } else { n },
            None => 5,
        },
{
    match requested {
        Some(n) => if n < 1 {
            1
        } else {
            n
        },
        None => 5,
    }
}


/// The trimmed lines that are not blank, in order.
pub open spec fn nonblank_trimmed(ls: Seq<Seq<char>>) -> Seq<Seq<char>>
    decreases ls.len(),
{
    if ls.len() == 0 {
        Seq::empty()
    } else {
        nonblank_trimmed(ls.drop_last()) + if trim(ls.last()).len() > 0 {
            seq![trim(ls.last())]
        } else {
            Seq::empty()
        }
    }
}

/// The records a memory file holds: its lines, trimmed, blank ones skipped.
pub open spec fn file_records(raw: Seq<char>) -> Seq<Seq<char>> {
    nonblank_trimmed(lines(raw))
}

/// Each record followed by a newline.
pub open spec fn records_text(ls: Seq<Seq<char>>) -> Seq<char>
    decreases ls.len(),
{
    if ls.len() == 0 {
        Seq::empty()
    } else {
        records_text(ls.drop_last()) + ls.last() + "\n"@
    }
}

/// The text a memory file is rewritten with: the records joined by newlines and
/// ended by one (a lone newline when there are none).
pub open spec fn record_file(ls: Seq<Seq<char>>) -> Seq<char> {
    if ls.len() == 0 {
        "\n"@
    } else {
        records_text(ls)
    }
}

/// A record fit for a line of its own: not empty, no surrounding whitespace, no
/// newline inside, not ending in a carriage return (a compact JSON text is one).
pub open spec fn clean_record(l: Seq<char>) -> bool {
    &&& l.len() > 0
    &&& trim(l) == l
    &&& forall|j: int| 0 <= j < l.len() ==> #[trigger] l[j] != '\n'
    &&& l.last() != '\r'
}

/// The records of a memory file's text.
pub fn record_lines(raw: &str) -> (r: Vec<String>)
    ensures
        r@.map_values(|s: String| s@) == file_records(raw@),
{
    let ls = lines_exec(&chars_of(raw));
    let ghost all = ls@.map_values(|x: Vec<char>| x@);
    let mut r: Vec<String> = Vec::new();
    let mut i: usize = 0;
    while i < ls.len()
        invariant
            i <= ls.len(),
            all == ls@.map_values(|x: Vec<char>| x@),
            all == lines(raw@),
            r@.map_values(|s: String| s@) == nonblank_trimmed(all.take(i as int)),
        decreases ls.len() - i,
    {
        let t = trim_chars(&ls[i]);
        let ghost before = r@.map_values(|s: String| s@);
        proof {
            assert(all.take(i + 1).drop_last() =~= all.take(i as int));
            assert(all.take(i + 1).last() == ls@[i as int]@);
        }
        if t.len() > 0 {
            r.push(string_from_chars(t.as_slice()));
            assert(r@.map_values(|s: String| s@) =~= before.push(t@));
        } else {
            assert(nonblank_trimmed(all.take(i + 1)) =~= nonblank_trimmed(all.take(i as int)));
        }
        i = i + 1;
    }
    assert(all.take(i as int) =~= all);
    r
}

/// The text a memory file is rewritten with, for the given records.
pub fn record_file_text(records: &Vec<String>) -> (r: String)
    ensures
        r@ == record_file(records@.map_values(|s: String| s@)),
{
    let ghost all = records@.map_values(|s: String| s@);
    if records.len() == 0 {
        return to_owned_string("\n");
    }
    let mut out: Vec<char> = Vec::new();
    let mut i: usize = 0;
    while i < records.len()
        invariant
            i <= records.len(),
            all == records@.map_values(|s: String| s@),
            out@ == records_text(all.take(i as int)),
        decreases records.len() - i,
    {
        push_chars(&mut out, &chars_of(records[i].as_str()));
        push_str(&mut out, "\n");
        proof {
            assert(all.take(i + 1).drop_last() =~= all.take(i as int));
            assert(all.take(i + 1).last() == records@[i as int]@);
        }
        i = i + 1;
    }
    assert(all.take(i as int) =~= all);
    string_from_chars(out.as_slice())
}

/// Splitting after appending text without a newline extends the last piece.
proof fn lemma_split_append(s: Seq<char>, t: Seq<char>)
    requires
        forall|j: int| 0 <= j < t.len() ==> #[trigger] t[j] != '\n',
    ensures
        split_newlines(s + t) == split_newlines(s).update(
            split_newlines(s).len() - 1,
            split_newlines(s).last() + t,
        ),
    decreases t.len(),
{
    lemma_split_newlines_len(s);
    if t.len() == 0 {
        assert(s + t =~= s);
        assert(split_newlines(s).last() + t =~= split_newlines(s).last());
        assert(split_newlines(s).update(split_newlines(s).len() - 1, split_newlines(s).last())
            =~= split_newlines(s));
    } else {
        let t0 = t.drop_last();
        lemma_split_append(s, t0);
        assert((s + t).drop_last() =~= s + t0);
        assert((s + t).last() == t.last());
        assert(t.last() != '\n');
        assert((split_newlines(s).last() + t0).push(t.last()) =~= split_newlines(s).last() + t);
        lemma_split_newlines_len(s + t0);
    }
}

/// Appending a clean record and a newline to a file that ends at a line break
/// adds that record to the file's lines.
proof fn lemma_lines_append_record(f: Seq<char>, l: Seq<char>)
    requires
        split_newlines(f).last().len() == 0,
        clean_record(l),
    ensures
        lines(f + l + "\n"@) == lines(f).push(l),
        split_newlines(f + l + "\n"@).last().len() == 0,
{
    reveal_strlit("\n");
    lemma_split_newlines_len(f);
    lemma_split_append(f, l);
    let p = split_newlines(f);
    let g = f + l + "\n"@;
    assert(g.drop_last() =~= f + l);
    assert(g.last() == '\n');
    let q = split_newlines(g);
    assert(q == p.update(p.len() - 1, p.last() + l).push(Seq::<char>::empty()));
    assert(p.last() + l =~= l);
    assert(strip_cr(l) == l);
    assert(lines(g) =~= lines(f).push(l));
}

proof fn lemma_nonblank_push(ls: Seq<Seq<char>>, l: Seq<char>)
    requires
        clean_record(l),
    ensures
        nonblank_trimmed(ls.push(l)) == nonblank_trimmed(ls).push(l),
{
    assert(ls.push(l).drop_last() =~= ls);
    assert(nonblank_trimmed(ls).push(l) =~= nonblank_trimmed(ls) + seq![l]);
}

/// Law of the memory file's append: writing a clean record and a newline at the
/// end of a file that ends at a line break adds exactly that record to what the
/// file loads as, and the file again ends at a line break.
pub proof fn law_append_adds_one_record(f: Seq<char>, l: Seq<char>)
    requires
        f.len() == 0 || f.last() == '\n',
        clean_record(l),
    ensures
        file_records(f + l + "\n"@) == file_records(f).push(l),
        (f + l + "\n"@).last() == '\n',
{
    reveal_strlit("\n");
    if f.len() > 0 {
        lemma_split_newlines_len(f.drop_last());
        assert(f =~= f.drop_last().push('\n'));
    }
    lemma_lines_append_record(f, l);
    lemma_nonblank_push(lines(f), l);
}

/// Law of the memory file's rewrite: a file rewritten with clean records loads
/// back as exactly those records, in order.
pub proof fn law_rewrite_loads_back(ls: Seq<Seq<char>>)
    requires
        forall|i: int| 0 <= i < ls.len() ==> clean_record(#[trigger] ls[i]),
    ensures
        file_records(record_file(ls)) == ls,
    decreases ls.len(),
{
    reveal_strlit("\n");
    if ls.len() == 0 {
        let e = Seq::<char>::empty();
        assert("\n"@.drop_last() =~= e);
        assert(split_newlines(e) == seq![e]);
        assert(split_newlines("\n"@) == seq![e].push(e));
        assert(lines("\n"@) =~= seq![e]);
        assert(leading_count(e, white_pred()) == 0);
        assert(trim_start(e) =~= e);
        assert(trim(e).len() == 0);
        let one = seq![e];
        assert(one.drop_last() =~= Seq::<Seq<char>>::empty());
        assert(one.last() == e);
        assert(nonblank_trimmed(Seq::<Seq<char>>::empty()) == Seq::<Seq<char>>::empty());
        assert(nonblank_trimmed(one) == nonblank_trimmed(one.drop_last()) + Seq::<Seq<char>>::empty());
        assert(nonblank_trimmed(one) =~= Seq::<Seq<char>>::empty());
    } else {
        lemma_records_text(ls);
    }
}

proof fn lemma_records_text(ls: Seq<Seq<char>>)
    requires
        forall|i: int| 0 <= i < ls.len() ==> clean_record(#[trigger] ls[i]),
    ensures
        file_records(records_text(ls)) == ls,
        records_text(ls).len() == 0 || records_text(ls).last() == '\n',
    decreases ls.len(),
{
    reveal_strlit("\n");
    if ls.len() == 0 {
        assert(split_newlines(Seq::<char>::empty()) =~= seq![Seq::<char>::empty()]);
        assert(lines(Seq::<char>::empty()) =~= Seq::<Seq<char>>::empty());
    } else {
        let init = ls.drop_last();
        assert forall|i: int| 0 <= i < init.len() implies clean_record(#[trigger] init[i]) by {
            assert(init[i] == ls[i]);
        }
        lemma_records_text(init);
        assert(clean_record(ls[ls.len() - 1]));
        law_append_adds_one_record(records_text(init), ls.last());
        assert(init.push(ls.last()) =~= ls);
    }
}


proof fn lemma_contains_in_concat(a: Seq<char>, b: Seq<char>, n: Seq<char>)
    ensures
        contains_seq(a, n) ==> contains_seq(a + b, n),
        contains_seq(b, n) ==> contains_seq(a + b, n),
{
    if contains_seq(a, n) {
        let i = choose|i: int| occurs_at(a, n, i);
        assert((a + b).subrange(i, i + n.len()) =~= a.subrange(i, i + n.len()));
        assert(occurs_at(a + b, n, i));
    }
    if contains_seq(b, n) {
        let i = choose|i: int| occurs_at(b, n, i);
        let k = a.len() + i;
        assert((a + b).subrange(k, k + n.len()) =~= b.subrange(i, i + n.len()));
        assert(occurs_at(a + b, n, k));
    }
}

proof fn lemma_join_contains_parts(parts: Seq<Seq<char>>)
    ensures
        forall|i: int| 0 <= i < parts.len() ==> contains_seq(join_spaces(parts), #[trigger] parts[i]),
    decreases parts.len(),
{
    assert forall|i: int| 0 <= i < parts.len() implies contains_seq(join_spaces(parts), #[trigger] parts[i]) by {
        let p = parts[i];
        assert(occurs_at(p, p, 0)) by {
            assert(p.subrange(0, p.len() as int) =~= p);
        }
        if parts.len() == 1 {
        } else {
            let init = parts.drop_last();
            lemma_join_contains_parts(init);
            lemma_contains_in_concat(join_spaces(init), " "@, p);
            lemma_contains_in_concat(join_spaces(init) + " "@, parts.last(), p);
            if i < parts.len() - 1 {
                assert(init[i] == p);
            }
        }
    }
}

/// Law of the recall text: an entry is matched against the lower-casing of a text
/// that holds its content and every one of its tags, so a keyword found in any
/// tag (or in the content), before lower-casing, is searched for in the entry.
pub proof fn law_recall_text_covers_content_and_every_tag(e: MemoryEntry)
    ensures
        exists|t: Seq<char>|
            entry_text(e) == lowercase(t) && contains_seq(t, e.content@) && forall|i: int|
                0 <= i < e.tags@.len() ==> contains_seq(t, #[trigger] e.tags@[i]@),
{
    let parts = e.tags@.map_values(|x: String| x@);
    let t = e.content@ + " "@ + join_spaces(parts);
    lemma_join_contains_parts(parts);
    assert(occurs_at(e.content@, e.content@, 0)) by {
        assert(e.content@.subrange(0, e.content@.len() as int) =~= e.content@);
    }
    lemma_contains_in_concat(e.content@, " "@, e.content@);
    lemma_contains_in_concat(e.content@ + " "@, join_spaces(parts), e.content@);
    assert forall|i: int| 0 <= i < e.tags@.len() implies contains_seq(t, #[trigger] e.tags@[i]@) by {
        assert(parts[i] == e.tags@[i]@);
        lemma_contains_in_concat(e.content@ + " "@, join_spaces(parts), parts[i]);
    }
    assert(entry_text(e) == lowercase(t));
}

} // verus!
