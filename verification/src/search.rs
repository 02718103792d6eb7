//! The line filter: which lines of a text match a query.

use crate::text::{contains, is_substring, lowercase_of};
use vstd::prelude::*;

verus! {

/// The form in which a text is compared: lowercased where case is ignored, as
/// it stands where it is not.
pub open spec fn folded(text: Seq<char>, ignore_case: bool) -> Seq<char> {
    if ignore_case {
        lowercase_of(text)
    } else {
        text
    }
}

/// Whether `line` matches `query`. The empty query matches no line; any other
/// query matches the lines that hold it as a contiguous block, both sides
/// folded alike.
pub open spec fn line_matches(query: Seq<char>, line: Seq<char>, ignore_case: bool) -> bool {
    &&& query.len() > 0
    &&& is_substring(folded(line, ignore_case), folded(query, ignore_case))
}

/// The lines of `lines` that match `query`, unchanged and in their order.
pub open spec fn matching_lines(
    query: Seq<char>,
    lines: Seq<Seq<char>>,
    ignore_case: bool,
) -> Seq<Seq<char>> {
    lines.filter(|line: Seq<char>| line_matches(query, line, ignore_case))
}

/// `picked` is what stands in `full` at the places `at`, and the places ascend:
/// nothing is reordered, repeated or made up.
pub open spec fn picks(full: Seq<Seq<char>>, at: Seq<int>, picked: Seq<Seq<char>>) -> bool {
    &&& at.len() == picked.len()
    &&& forall|k: int|
        0 <= k < at.len() ==> 0 <= #[trigger] at[k] < full.len() && picked[k] == full[at[k]]
    &&& forall|j: int, k: int| 0 <= j < k < at.len() ==> #[trigger] at[j] < #[trigger] at[k]
}

/// What a `LineFilter` stands for: the query it was made from and whether it
/// ignores case.
pub struct FilterModel {
    pub query: Seq<char>,
    pub ignore_case: bool,
}

/// A query made ready to be tested against one line after another. It holds
/// the folded query and the flag, and nothing of the lines it has seen.
pub struct LineFilter {
    needle: String,
    ignore_case: bool,
    nonempty: bool,
    query: Ghost<Seq<char>>,
}

impl View for LineFilter {
    type V = FilterModel;

    closed spec fn view(&self) -> FilterModel {
        FilterModel { query: self.query@, ignore_case: self.ignore_case }
    }
}

impl LineFilter {
    #[verifier::type_invariant]
    spec fn well_formed(self) -> bool {
        &&& self.needle@ == folded(self.query@, self.ignore_case)
        &&& self.nonempty == (self.query@.len() > 0)
    }

    /// Folds `query` once, for all the lines to come.
    pub fn new(query: &str, ignore_case: bool) -> (filter: LineFilter)
        ensures
            filter@ == (FilterModel { query: query@, ignore_case }),
    {
        let needle = if ignore_case {
            query.to_lowercase()
        } else {
            query.to_owned()
        };
        LineFilter { needle, ignore_case, nonempty: !query.is_empty(), query: Ghost(query@) }
    }

    /// Whether the filter accepts no line at all, so that none need be read:
    /// so it is with the empty query, and with no other.
    pub fn accepts_nothing(&self) -> (nothing: bool)
        ensures
            nothing == (self@.query.len() == 0),
            nothing ==> forall|line: Seq<char>|
                !#[trigger] line_matches(self@.query, line, self@.ignore_case),
    {
        proof {
            use_type_invariant(self);
        }
        !self.nonempty
    }

    /// Whether `line` matches the query of this filter.
    pub fn accepts(&self, line: &str) -> (accepted: bool)
        ensures
            accepted == line_matches(self@.query, line@, self@.ignore_case),
    {
        proof {
            use_type_invariant(self);
        }
        if !self.nonempty {
            false
        } else if self.ignore_case {
            let lower = line.to_lowercase();
            contains(lower.as_str(), self.needle.as_str())
        } else {
            contains(line, self.needle.as_str())
        }
    }
}

/// The lines of `contents` that match `query`, unchanged and in their order.
/// The empty query matches nothing.
pub fn search(query: &str, contents: Vec<String>, ignore_case: bool) -> (found: Vec<String>)
    ensures
        found.deep_view() == matching_lines(query@, contents.deep_view(), ignore_case),
        query@.len() == 0 ==> found@.len() == 0,
        contents@.len() == 0 ==> found@.len() == 0,
{
    let ghost lines = contents.deep_view();
    let mut found: Vec<String> = Vec::new();
    if query.is_empty() {
        proof {
            lemma_empty_query(query@, lines, ignore_case);
        }
        return found;
    }
    let filter = LineFilter::new(query, ignore_case);
    proof {
        lemma_empty_lines(query@, ignore_case);
    }
    for line in it: contents
        invariant
            filter@ == (FilterModel { query: query@, ignore_case }),
            it.seq().len() == lines.len(),
            forall|i: int| 0 <= i < lines.len() ==> lines[i] == #[trigger] it.seq()[i]@,
            found.deep_view() == matching_lines(query@, lines.take(it.index()), ignore_case),
    {
        proof {
            lemma_matching_lines_push(query@, lines.take(it.index()), line@, ignore_case);
            assert(lines.take(it.index()).push(line@) =~= lines.take(it.index() + 1));
        }
        if filter.accepts(line.as_str()) {
            found.push(line);
        }
    }
    proof {
        assert(lines.take(lines.len() as int) =~= lines);
    }
    found
}

/// No lines hold no matches.
pub proof fn lemma_empty_lines(query: Seq<char>, ignore_case: bool)
    ensures
        matching_lines(query, Seq::empty(), ignore_case) == Seq::<Seq<char>>::empty(),
{
    reveal(Seq::filter);
}

/// The empty query matches no line.
pub proof fn lemma_empty_query(query: Seq<char>, lines: Seq<Seq<char>>, ignore_case: bool)
    requires
        query.len() == 0,
    ensures
        matching_lines(query, lines, ignore_case) == Seq::<Seq<char>>::empty(),
    decreases lines.len(),
{
    reveal(Seq::filter);
    if lines.len() > 0 {
        lemma_empty_query(query, lines.drop_last(), ignore_case);
    }
}

/// One more line at the end adds itself to the matches where it matches, and
/// nothing where it does not.
pub proof fn lemma_matching_lines_push(
    query: Seq<char>,
    lines: Seq<Seq<char>>,
    line: Seq<char>,
    ignore_case: bool,
)
    ensures
        matching_lines(query, lines.push(line), ignore_case) == if line_matches(
            query,
            line,
            ignore_case,
        ) {
            matching_lines(query, lines, ignore_case).push(line)
        } else {
            matching_lines(query, lines, ignore_case)
        },
{
    reveal(Seq::filter);
    assert(lines.push(line).drop_last() =~= lines);
}

/// The matches are the lines at the places where a line matches, in ascending
/// order of place. The result is the sequence of those places.
pub proof fn lemma_matching_lines_places(
    query: Seq<char>,
    lines: Seq<Seq<char>>,
    ignore_case: bool,
) -> (at: Seq<int>)
    ensures
        picks(lines, at, matching_lines(query, lines, ignore_case)),
        forall|i: int|
            0 <= i < lines.len() ==> (at.contains(i) <==> line_matches(
                query,
                #[trigger] lines[i],
                ignore_case,
            )),
    decreases lines.len(),
{
    reveal(Seq::filter);
    if lines.len() == 0 {
        Seq::empty()
    } else {
        let front = lines.drop_last();
        let last = lines.len() - 1;
        let at_front = lemma_matching_lines_places(query, front, ignore_case);
        let at = if line_matches(query, lines.last(), ignore_case) {
            at_front.push(last)
        } else {
            at_front
        };
        assert forall|i: int| 0 <= i < lines.len() implies (at.contains(i) <==> line_matches(
            query,
            #[trigger] lines[i],
            ignore_case,
        )) by {
            if i < last {
                assert(lines[i] == front[i]);
                if at_front.contains(i) {
                    let k = choose|k: int| 0 <= k < at_front.len() && at_front[k] == i;
                    assert(at[k] == i);
                }
            } else if line_matches(query, lines.last(), ignore_case) {
                assert(at[at.len() - 1] == i);
            }
        }
        at
    }
}

/// Every match is a line that matches, and every line that matches is among
/// the matches.
pub proof fn lemma_matching_lines_members(
    query: Seq<char>,
    lines: Seq<Seq<char>>,
    ignore_case: bool,
)
    ensures
        ({
            let found = matching_lines(query, lines, ignore_case);
            &&& forall|k: int|
                0 <= k < found.len() ==> lines.contains(#[trigger] found[k]) && line_matches(
                    query,
                    found[k],
                    ignore_case,
                )
            &&& forall|i: int|
                0 <= i < lines.len() && line_matches(query, #[trigger] lines[i], ignore_case)
                    ==> found.contains(lines[i])
        }),
{
    let found = matching_lines(query, lines, ignore_case);
    let at = lemma_matching_lines_places(query, lines, ignore_case);
    assert forall|k: int| 0 <= k < found.len() implies lines.contains(#[trigger] found[k])
        && line_matches(query, found[k], ignore_case) by {
        assert(found[k] == lines[at[k]]);
    }
    assert forall|i: int|
        0 <= i < lines.len() && line_matches(
            query,
            #[trigger] lines[i],
            ignore_case,
        ) implies found.contains(lines[i]) by {
        let k = choose|k: int| 0 <= k < at.len() && at[k] == i;
        assert(found[k] == lines[i]);
    }
}

/// With case regarded, a search keeps exactly the lines that hold the query
/// as it stands, in their order. The result is the sequence of the places
/// kept. The empty query is left out: every line holds it, and none is kept.
pub proof fn lemma_case_sensitive_search(query: Seq<char>, lines: Seq<Seq<char>>) -> (at: Seq<
    int,
>)
    requires
        query.len() > 0 || lines.len() == 0,
    ensures
        ({
            let found = matching_lines(query, lines, false);
            &&& forall|k: int|
                0 <= k < found.len() ==> lines.contains(#[trigger] found[k]) && is_substring(
                    found[k],
                    query,
                )
            &&& forall|i: int|
                0 <= i < lines.len() && is_substring(#[trigger] lines[i], query)
                    ==> found.contains(lines[i])
            &&& picks(lines, at, found)
            &&& forall|i: int|
                0 <= i < lines.len() ==> (at.contains(i) <==> is_substring(
                    #[trigger] lines[i],
                    query,
                ))
        }),
{
    lemma_matching_lines_members(query, lines, false);
    lemma_matching_lines_places(query, lines, false)
}

/// With case ignored, a search keeps exactly the lines whose lowercase form
/// holds the lowercase form of the query, in their order and as they were
/// written. The result is the sequence of the places kept. The empty query is
/// left out: none is kept for it.
pub proof fn lemma_case_insensitive_search(query: Seq<char>, lines: Seq<Seq<char>>) -> (at: Seq<
    int,
>)
    requires
        query.len() > 0 || lines.len() == 0,
    ensures
        ({
            let found = matching_lines(query, lines, true);
            &&& forall|k: int|
                0 <= k < found.len() ==> lines.contains(#[trigger] found[k]) && is_substring(
                    lowercase_of(found[k]),
                    lowercase_of(query),
                )
            &&& forall|i: int|
                0 <= i < lines.len() && is_substring(
                    lowercase_of(#[trigger] lines[i]),
                    lowercase_of(query),
                ) ==> found.contains(lines[i])
            &&& picks(lines, at, found)
            &&& forall|i: int|
                0 <= i < lines.len() ==> (at.contains(i) <==> is_substring(
                    lowercase_of(#[trigger] lines[i]),
                    lowercase_of(query),
                ))
        }),
{
    lemma_matching_lines_members(query, lines, true);
    lemma_matching_lines_places(query, lines, true)
}

} // verus!
