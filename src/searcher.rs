use vstd::prelude::*;
use vstd::string::*;

use crate::matcher::{has_ascii_upper, is_subsequence, skim_indices, Matcher};
use crate::str_ext::{decorated, StrExt};

verus! {

/// A listed filesystem entry, as the traversal hands it over: its base name, the
/// path of its parent relative to the search root, and whether it is a directory.
pub struct EntryInfo {
    pub name: String,
    pub parent: String,
    pub is_dir: bool,
}

/// Whether the query matches the base name `name`.
pub open spec fn name_matches(name: Seq<char>, query: Seq<char>) -> bool {
    skim_indices(name, query) is Some
}

/// The display text of a match: `.\` then the parent directory, `\`, and the
/// decorated name.
pub open spec fn display_text(parent: Seq<char>, decorated_name: Seq<char>) -> Seq<char> {
    seq!['.', '\\'] + parent + seq!['\\'] + decorated_name
}

/// `text` is the display text of entry `name` under `parent`, with the characters
/// at the matched positions decorated.
pub open spec fn is_display_of(
    text: Seq<char>,
    parent: Seq<char>,
    name: Seq<char>,
    indices: Seq<usize>,
) -> bool {
    exists|lit: Seq<bool>|
        lit.len() == name.len() && text == display_text(parent, decorated(name, indices, lit))
}

/// `c` is the candidate that entry (`name`, `parent`) gives for `query`.
pub open spec fn is_candidate_of(
    c: (i64, String),
    name: Seq<char>,
    parent: Seq<char>,
    query: Seq<char>,
) -> bool {
    &&& skim_indices(name, query) is Some
    &&& c.0 == skim_indices(name, query)->Some_0.0
    &&& is_display_of(c.1@, parent, name, skim_indices(name, query)->Some_0.1)
}

pub open spec fn entry_matches(query: Seq<char>) -> spec_fn(EntryInfo) -> bool {
    |e: EntryInfo| name_matches(e.name@, query)
}

/// The entries of `entries` whose name the query matches, in their order.
pub open spec fn matching_entries(entries: Seq<EntryInfo>, query: Seq<char>) -> Seq<EntryInfo> {
    entries.filter(entry_matches(query))
}

/// Each entry whose name the query matches is collected exactly as many times as
/// it was listed, and an entry that does not match is never collected.
pub proof fn lemma_matching_is_complete(entries: Seq<EntryInfo>, query: Seq<char>, x: EntryInfo)
    ensures
        matching_entries(entries, query).to_multiset().count(x) == if name_matches(
            x.name@,
            query,
        ) {
            entries.to_multiset().count(x)
        } else {
            0
        },
    decreases entries.len(),
{
    broadcast use vstd::seq_lib::group_to_multiset_ensures;

    if entries.len() == 0 {
        assert(matching_entries(entries, query) =~= entries);
        assert(entries =~= Seq::<EntryInfo>::empty());
        assert(entries.to_multiset().len() == 0);
    } else {
        let d = entries.drop_last();
        lemma_matching_is_complete(d, query, x);
        assert(d.push(entries.last()) =~= entries);
        d.lemma_filter_push(entries.last(), entry_matches(query));
    }
}

/// The matching entries do not depend on the order in which the entries were
/// listed: the same entries in any order give the same matches.
pub proof fn lemma_matching_ignores_order(a: Seq<EntryInfo>, b: Seq<EntryInfo>, query: Seq<char>)
    requires
        a.to_multiset() == b.to_multiset(),
    ensures
        matching_entries(a, query).to_multiset() == matching_entries(b, query).to_multiset(),
{
    assert forall|x: EntryInfo|
        #[trigger] matching_entries(a, query).to_multiset().count(x) == matching_entries(
            b,
            query,
        ).to_multiset().count(x) by {
        lemma_matching_is_complete(a, query, x);
        lemma_matching_is_complete(b, query, x);
    }
    assert(matching_entries(a, query).to_multiset() =~= matching_entries(b, query).to_multiset());
}

/// The candidate for entry `file_name` under `parent_dir` that scored `score` with
/// its characters at `indices` matched: the score, and the display text with those
/// characters decorated.
pub fn format_candidate(file_name: &str, parent_dir: &str, score: i64, indices: Vec<usize>) -> (r: (
    i64,
    String,
))
    ensures
        r.0 == score,
        is_display_of(r.1@, parent_dir@, file_name@, indices@),
{
    let ghost idx = indices@;
    let colored_name = file_name.colorize_matches(indices);
    let mut text = String::from_str(".\\");
    text.append(parent_dir);
    text.append("\\");
    text.append(colored_name.as_str());
    proof {
        reveal_strlit(".\\");
        reveal_strlit("\\");
        let lit = choose|lit: Seq<bool>|
            lit.len() == file_name@.len() && colored_name@ == decorated(file_name@, idx, lit);
        assert(text@ =~= display_text(parent_dir@, decorated(file_name@, idx, lit)));
    }
    (score, text)
}

/// The score of a matching entry.
pub open spec fn entry_score(query: Seq<char>) -> spec_fn(EntryInfo) -> i64 {
    |e: EntryInfo| skim_indices(e.name@, query)->Some_0.0
}

pub open spec fn candidate_score() -> spec_fn((i64, String)) -> i64 {
    |c: (i64, String)| c.0
}

/// The scores of the candidates that a listing gives, in the order of the listing.
pub open spec fn candidate_scores(entries: Seq<EntryInfo>, query: Seq<char>) -> Seq<i64> {
    matching_entries(entries, query).map_values(entry_score(query))
}

proof fn lemma_map_keeps_permutation(a: Seq<EntryInfo>, b: Seq<EntryInfo>, f: spec_fn(EntryInfo) -> i64)
    requires
        a.to_multiset() == b.to_multiset(),
    ensures
        a.map_values(f).to_multiset() == b.map_values(f).to_multiset(),
    decreases a.len(),
{
    broadcast use vstd::seq_lib::group_to_multiset_ensures;

    if a.len() == 0 {
        assert(a.to_multiset().len() == a.len());
        assert(b.to_multiset().len() == b.len());
        assert(b.len() == 0);
        assert(a.map_values(f) =~= b.map_values(f));
    } else {
        let x = a.last();
        let d = a.drop_last();
        assert(d.push(x) =~= a);
        assert(b.to_multiset().count(x) > 0);
        let i = choose|i: int| 0 <= i < b.len() && b[i] == x;
        let c = b.remove(i);
        assert(d.to_multiset() =~= a.to_multiset().remove(x));
        lemma_map_keeps_permutation(d, c, f);
        assert(a.map_values(f) =~= d.map_values(f).push(f(x)));
        assert(b.map_values(f).remove(i) =~= c.map_values(f));
        assert(b.map_values(f)[i] == f(x));
        assert(b.map_values(f).to_multiset() =~= c.map_values(f).to_multiset().insert(f(x)));
    }
}

/// The scores of the candidates do not depend on the order in which the entries
/// were listed: the same entries in any order give the same scores, each as often.
pub proof fn lemma_candidate_scores_ignore_order(
    a: Seq<EntryInfo>,
    b: Seq<EntryInfo>,
    query: Seq<char>,
)
    requires
        a.to_multiset() == b.to_multiset(),
    ensures
        candidate_scores(a, query).to_multiset() == candidate_scores(b, query).to_multiset(),
{
    lemma_matching_ignores_order(a, b, query);
    lemma_map_keeps_permutation(
        matching_entries(a, query),
        matching_entries(b, query),
        entry_score(query),
    );
}

/// Scores the base names of listed entries against one query.
pub struct Searcher {
    base_dir: String,
    matcher: Matcher,
    verbose: bool,
}

impl Searcher {
    pub closed spec fn query_view(&self) -> Seq<char> {
        self.matcher.query_view()
    }

    pub closed spec fn verbose_view(&self) -> bool {
        self.verbose
    }

    pub closed spec fn base_dir_view(&self) -> Seq<char> {
        self.base_dir@
    }

    pub fn new(base_dir: String, query: String, verbose: bool) -> (r: Self)
        ensures
            r.query_view() == query@,
            r.verbose_view() == verbose,
            r.base_dir_view() == base_dir@,
    {
        Searcher { base_dir, verbose, matcher: Matcher::new(query) }
    }

    /// The root that entries' parents are relative to.
    pub fn base_dir(&self) -> (r: &str)
        ensures
            r@ == self.base_dir_view(),
    {
        self.base_dir.as_str()
    }

    /// Whether an unreadable directory is to be reported.
    pub fn verbose(&self) -> (r: bool)
        ensures
            r == self.verbose_view(),
    {
        self.verbose
    }

    /// The candidate for one entry: its score and display text where the query
    /// matches its base name, `None` where it does not.
    pub fn check_match(&self, file_name: &str, parent_dir: &str, is_dir: bool) -> (r: Option<
        (i64, String),
    >)
        ensures
            r is Some <==> name_matches(file_name@, self.query_view()),
            r is Some <==> is_subsequence(
                self.query_view(),
                file_name@,
                has_ascii_upper(self.query_view()),
            ),
            r matches Some(c) ==> is_candidate_of(c, file_name@, parent_dir@, self.query_view()),
    {
        match self.matcher.fmatch(file_name) {
            Some((score, indices)) => Some(format_candidate(file_name, parent_dir, score, indices)),
            None => None,
        }
    }

    /// The candidates of a directory's listed entries: one for each entry whose
    /// name matches, in the order of the entries, and none for the others.
    pub fn collect_matches(&self, entries: &Vec<EntryInfo>) -> (r: Vec<(i64, String)>)
        ensures
            r@.len() == matching_entries(entries@, self.query_view()).len(),
            r@.map_values(candidate_score()) == candidate_scores(entries@, self.query_view()),
            forall|k: int|
                0 <= k < r@.len() ==> is_candidate_of(
                    #[trigger] r@[k],
                    matching_entries(entries@, self.query_view())[k].name@,
                    matching_entries(entries@, self.query_view())[k].parent@,
                    self.query_view(),
                ),
    {
        let ghost q = self.query_view();
        broadcast use vstd::seq_lib::group_filter_ensures;

        let mut out: Vec<(i64, String)> = Vec::new();
        let mut i: usize = 0;
        while i < entries.len()
            invariant
                q == self.query_view(),
                i <= entries@.len(),
                out@.len() == matching_entries(entries@.take(i as int), q).len(),
                forall|k: int|
                    0 <= k < out@.len() ==> is_candidate_of(
                        #[trigger] out@[k],
                        matching_entries(entries@.take(i as int), q)[k].name@,
                        matching_entries(entries@.take(i as int), q)[k].parent@,
                        q,
                    ),
            decreases entries@.len() - i,
        {
            let e = &entries[i];
            let ghost before = matching_entries(entries@.take(i as int), q);
            proof {
                let t = entries@.take(i as int + 1);
                assert(t.drop_last() =~= entries@.take(i as int));
                assert(t.last() == entries@[i as int]);
                reveal(Seq::filter);
            }
            match self.check_match(e.name.as_str(), e.parent.as_str(), e.is_dir) {
                Some(c) => {
                    out.push(c);
                },
                None => {},
            }
            proof {
                assert(matching_entries(entries@.take(i as int + 1), q) =~= if name_matches(
                    entries@[i as int].name@,
                    q,
                ) {
                    before.push(entries@[i as int])
                } else {
                    before
                });
            }
            i = i + 1;
        }
        proof {
            assert(entries@.take(entries@.len() as int) =~= entries@);
            assert(out@.map_values(candidate_score()) =~= candidate_scores(entries@, q));
        }
        out
    }
}

/// The candidates gathered during one search: appended to, never removed from.
pub struct MatchStore {
    entries: Vec<(i64, String)>,
}

impl MatchStore {
    pub closed spec fn view(&self) -> Seq<(i64, String)> {
        self.entries@
    }

    pub fn new() -> (r: Self)
        ensures
            r.view() == Seq::<(i64, String)>::empty(),
    {
        MatchStore { entries: Vec::new() }
    }

    /// Adds one candidate at the end.
    pub fn append(&mut self, candidate: (i64, String))
        ensures
            final(self).view() == old(self).view().push(candidate),
    {
        self.entries.push(candidate);
    }

    /// Adds candidates at the end, in their order.
    pub fn append_all(&mut self, candidates: Vec<(i64, String)>)
        ensures
            final(self).view() == old(self).view() + candidates@,
    {
        let mut candidates = candidates;
        self.entries.append(&mut candidates);
    }

    pub fn len(&self) -> (r: usize)
        ensures
            r == self.view().len(),
    {
        self.entries.len()
    }

    /// A copy of the candidates held now.
    pub fn snapshot(&self) -> (r: Vec<(i64, String)>)
        ensures
            r@ == self.view(),
    {
        let mut out: Vec<(i64, String)> = Vec::new();
        let mut i: usize = 0;
        while i < self.entries.len()
            invariant
                i <= self.entries@.len(),
                out@ =~= self.entries@.take(i as int),
            decreases self.entries@.len() - i,
        {
            out.push((self.entries[i].0, self.entries[i].1.clone()));
            i = i + 1;
        }
        proof {
            assert(self.entries@.take(i as int) =~= self.entries@);
        }
        out
    }
}

/// Whether a frame differs from the one last drawn, and so is to be drawn in full.
pub open spec fn needs_redraw(last: Seq<String>, frame: Seq<String>) -> bool {
    texts(frame) != texts(last)
}

/// The characters of each line of a displayed list.
pub open spec fn texts(lines: Seq<String>) -> Seq<Seq<char>> {
    lines.map_values(|t: String| t@)
}

/// Remembers the displayed list last drawn, to tell a full redraw from a
/// progress update.
pub struct FrameRenderer {
    last_printed: Vec<String>,
}

impl FrameRenderer {
    pub closed spec fn last_view(&self) -> Seq<String> {
        self.last_printed@
    }

    pub fn new() -> (r: Self)
        ensures
            r.last_view() == Seq::<String>::empty(),
    {
        FrameRenderer { last_printed: Vec::new() }
    }

    /// Takes the newest displayed list: true where it is to be drawn in full,
    /// false where only the progress line is to be updated. Either way the list
    /// is the one last drawn afterwards.
    pub fn observe(&mut self, frame: &Vec<String>) -> (redraw: bool)
        ensures
            redraw == needs_redraw(old(self).last_view(), frame@),
            final(self).last_view() == frame@,
    {
        let mut same = frame.len() == self.last_printed.len();
        proof {
            if !same {
                assert(texts(frame@).len() != texts(self.last_printed@).len());
            }
        }
        let mut i: usize = 0;
        while same && i < frame.len()
            invariant
                same ==> frame@.len() == self.last_printed@.len(),
                i <= frame@.len(),
                same ==> forall|j: int| 0 <= j < i ==> frame@[j]@ == self.last_printed@[j]@,
                !same ==> texts(frame@) != texts(self.last_printed@),
            decreases frame@.len() - i,
        {
            if frame[i] != self.last_printed[i] {
                same = false;
                assert(texts(frame@)[i as int] != texts(self.last_printed@)[i as int]);
            }
            i = i + 1;
        }
        if same {
            assert(texts(frame@) =~= texts(self.last_printed@));
        }
        let mut copy: Vec<String> = Vec::new();
        let mut k: usize = 0;
        while k < frame.len()
            invariant
                k <= frame@.len(),
                copy@ =~= frame@.take(k as int),
            decreases frame@.len() - k,
        {
            copy.push(frame[k].clone());
            k = k + 1;
        }
        assert(frame@.take(k as int) =~= frame@);
        self.last_printed = copy;
        !same
    }
}

/// A frame that repeats the one before it is never drawn in full: after a list
/// has been observed, observing the same list again asks only for a progress
/// update.
pub proof fn lemma_no_duplicate_redraw(first: Seq<String>, second: Seq<String>)
    requires
        texts(first) == texts(second),
    ensures
        !needs_redraw(first, second),
{
}

} // verus!
