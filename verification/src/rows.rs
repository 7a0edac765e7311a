//! Rows of the table: splitting a row into its `;`-separated fields and
//! searching a sequence of rows for a query.

use vstd::prelude::*;
use vstd::string::StrSliceExecFns;
use crate::pattern::ci_contains;
use crate::pattern::engine_accepts;
use crate::pattern::CiMatcher;

verus! {

/// The `;`-separated fields of one row, in order. An empty row has one
/// empty field, and a trailing `;` contributes one more empty field.
pub open spec fn spec_split(line: Seq<char>) -> Seq<Seq<char>>
    decreases line.len(),
{
    if line.len() == 0 {
        seq![Seq::<char>::empty()]
    } else {
        let pre = spec_split(line.drop_last());
        if line.last() == ';' {
            pre + seq![Seq::<char>::empty()]
        } else {
            pre.update(pre.len() - 1, pre.last().push(line.last()))
        }
    }
}

/// Splitting always yields at least one field.
pub proof fn lemma_split_nonempty(line: Seq<char>)
    ensures
        spec_split(line).len() >= 1,
    decreases line.len(),
{
    if line.len() > 0 {
        lemma_split_nonempty(line.drop_last());
    }
}

/// Splits a row on `;` into its fields.
pub fn split_semicolon(line: &str) -> (r: Vec<String>)
    ensures
        r@.map_values(|f: String| f@) == spec_split(line@),
{
    let n = line.unicode_len();
    let mut fields: Vec<String> = Vec::new();
    let mut start: usize = 0;
    let mut i: usize = 0;
    proof {
        assert(fields@.map_values(|f: String| f@) + seq![line@.subrange(0, 0)]
            =~~= spec_split(line@.take(0)));
    }
    while i < n
        invariant
            start <= i <= n,
            n == line@.len(),
            fields@.map_values(|f: String| f@) + seq![line@.subrange(start as int, i as int)]
                == spec_split(line@.take(i as int)),
        decreases n - i,
    {
        proof {
            assert(line@.take(i + 1).drop_last() =~= line@.take(i as int));
            lemma_split_nonempty(line@.take(i as int));
        }
        let ghost prev = fields@.map_values(|f: String| f@);
        let c = line.get_char(i);
        if c == ';' {
            let field = line.substring_char(start, i).to_owned();
            fields.push(field);
            proof {
                assert(fields@.map_values(|f: String| f@)
                    =~= prev.push(line@.subrange(start as int, i as int)));
                assert(fields@.map_values(|f: String| f@)
                    + seq![line@.subrange(i + 1, i + 1)]
                    =~~= spec_split(line@.take(i + 1)));
            }
            start = i + 1;
        } else {
            proof {
                let pre = spec_split(line@.take(i as int));
                assert(pre.last() == line@.subrange(start as int, i as int));
                assert(line@.subrange(start as int, i + 1)
                    =~= line@.subrange(start as int, i as int).push(line@[i as int]));
                assert(prev + seq![line@.subrange(start as int, i + 1)]
                    =~~= pre.update(pre.len() - 1, pre.last().push(line@[i as int])));
            }
        }
        i += 1;
    }
    proof {
        assert(line@.take(n as int) =~= line@);
    }
    let last_field = line.substring_char(start, n).to_owned();
    fields.push(last_field);
    proof {
        assert(fields@.map_values(|f: String| f@)
            =~= spec_split(line@.take(n as int)));
    }
    fields
}

/// A row keeps through the search when the query matches it and it splits
/// into at least two fields.
pub open spec fn keeps_row(query: Seq<char>, line: Seq<char>) -> bool {
    ci_contains(query, line) && spec_split(line).len() >= 2
}

/// The pair a kept row contributes: its code point and its name, the first
/// two fields.
pub open spec fn row_pair(line: Seq<char>) -> (Seq<char>, Seq<char>) {
    (spec_split(line)[0], spec_split(line)[1])
}

/// The whole search result over a sequence of rows, in row order.
pub open spec fn spec_search(query: Seq<char>, lines: Seq<Seq<char>>) -> Seq<(Seq<char>, Seq<char>)>
    decreases lines.len(),
{
    if lines.len() == 0 {
        Seq::empty()
    } else if keeps_row(query, lines.last()) {
        spec_search(query, lines.drop_last()) + seq![row_pair(lines.last())]
    } else {
        spec_search(query, lines.drop_last())
    }
}

/// The rows as character sequences.
pub open spec fn line_views(lines: Seq<String>) -> Seq<Seq<char>> {
    lines.map_values(|l: String| l@)
}

/// The result pairs as pairs of character sequences.
pub open spec fn pair_views(pairs: Seq<(String, String)>) -> Seq<(Seq<char>, Seq<char>)> {
    pairs.map_values(|p: (String, String)| (p.0@, p.1@))
}

/// Scans the rows with an already-compiled matcher and returns, in row
/// order, the first two fields of every row the query matches.
pub fn search_rows(m: &CiMatcher, lines: &Vec<String>) -> (r: Vec<(String, String)>)
    ensures
        pair_views(r@) == spec_search(m.query_view(), line_views(lines@)),
{
    let mut out: Vec<(String, String)> = Vec::new();
    let mut i: usize = 0;
    while i < lines.len()
        invariant
            i <= lines@.len(),
            pair_views(out@) == spec_search(m.query_view(), line_views(lines@).take(i as int)),
        decreases lines@.len() - i,
    {
        let ghost lv = line_views(lines@);
        proof {
            assert(lv.take(i + 1).drop_last() =~= lv.take(i as int));
            assert(lv.take(i + 1).last() == lines@[i as int]@);
        }
        let ghost prev = pair_views(out@);
        let line = &lines[i];
        if m.matches_line(line.as_str()) {
            let fields = split_semicolon(line.as_str());
            if fields.len() >= 2 {
                let code = fields[0].clone();
                let name = fields[1].clone();
                out.push((code, name));
                proof {
                    assert(row_pair(line@) == (code@, name@));
                    assert(pair_views(out@) =~= prev.push(row_pair(line@)));
                }
            } else {
                proof {
                    assert(!keeps_row(m.query_view(), lv.take(i + 1).last()));
                }
            }
        }
        i += 1;
    }
    proof {
        assert(line_views(lines@).take(lines@.len() as int) =~= line_views(lines@));
    }
    out
}

/// The index of every row the search keeps, in increasing order.
pub open spec fn kept_indices(query: Seq<char>, lines: Seq<Seq<char>>) -> Seq<int>
    decreases lines.len(),
{
    if lines.len() == 0 {
        Seq::empty()
    } else if keeps_row(query, lines.last()) {
        kept_indices(query, lines.drop_last()) + seq![lines.len() - 1]
    } else {
        kept_indices(query, lines.drop_last())
    }
}

/// Every pair of the search result comes from a row of the input that the
/// query matches and that splits into at least two fields; the pair is that
/// row's first two fields; the pairs come in the rows' own order; and a row
/// contributes exactly when the query matches it and it has two fields.
pub proof fn lemma_search_sound(query: Seq<char>, lines: Seq<Seq<char>>)
    ensures
        spec_search(query, lines).len() == kept_indices(query, lines).len(),
        forall|i: int| 0 <= i < kept_indices(query, lines).len() ==>
            0 <= #[trigger] kept_indices(query, lines)[i] < lines.len(),
        forall|i: int| 0 <= i < kept_indices(query, lines).len() ==>
            keeps_row(query, lines[#[trigger] kept_indices(query, lines)[i]]),
        forall|i: int| 0 <= i < kept_indices(query, lines).len() ==>
            #[trigger] spec_search(query, lines)[i]
                == row_pair(lines[kept_indices(query, lines)[i]]),
        forall|i: int, j: int| 0 <= i < j < kept_indices(query, lines).len() ==>
            #[trigger] kept_indices(query, lines)[i] < #[trigger] kept_indices(query, lines)[j],
        forall|j: int| 0 <= j < lines.len() ==>
            (#[trigger] kept_indices(query, lines).contains(j) <==> keeps_row(query, lines[j])),
    decreases lines.len(),
{
    if lines.len() > 0 {
        let n = lines.len() as int;
        let pre = lines.drop_last();
        lemma_search_sound(query, pre);
        assert(forall|k: int| 0 <= k < pre.len() ==> #[trigger] pre[k] == lines[k]);
        let ki = kept_indices(query, lines);
        let kp = kept_indices(query, pre);
        assert forall|j: int| 0 <= j < n implies
            (#[trigger] ki.contains(j) <==> keeps_row(query, lines[j])) by {
            if keeps_row(query, lines.last()) {
                assert(ki == kp + seq![n - 1]);
                if j == n - 1 {
                    assert(ki[ki.len() - 1] == j);
                    assert(ki.contains(j));
                } else {
                    if ki.contains(j) {
                        let i = choose|i: int| 0 <= i < ki.len() && ki[i] == j;
                        assert(kp[i] == j);
                        assert(kp.contains(j));
                        assert(keeps_row(query, lines[j]));
                    }
                    if keeps_row(query, lines[j]) {
                        assert(keeps_row(query, pre[j]));
                        assert(kp.contains(j));
                        let i = choose|i: int| 0 <= i < kp.len() && kp[i] == j;
                        assert(ki[i] == j);
                        assert(ki.contains(j));
                    }
                }
            } else {
                assert(ki == kp);
                if j == n - 1 {
                    if ki.contains(j) {
                        let i = choose|i: int| 0 <= i < ki.len() && ki[i] == j;
                        assert(0 <= kp[i] < pre.len());
                        assert(false);
                    }
                } else {
                    if ki.contains(j) {
                        assert(kp.contains(j));
                        assert(keeps_row(query, lines[j]));
                    }
                    if keeps_row(query, lines[j]) {
                        assert(keeps_row(query, pre[j]));
                        assert(kp.contains(j));
                        assert(ki.contains(j));
                    }
                }
            }
        }
    }
}

/// A row with fewer than two `;`-separated fields never contributes to the
/// output, even when the query matches it.
pub proof fn lemma_short_row_never_output(query: Seq<char>, lines: Seq<Seq<char>>, j: int)
    requires
        0 <= j < lines.len(),
        spec_split(lines[j]).len() < 2,
    ensures
        !kept_indices(query, lines).contains(j),
{
    lemma_search_sound(query, lines);
}

/// A query that matches no row of the input yields the empty result.
pub proof fn lemma_no_match_empty(query: Seq<char>, lines: Seq<Seq<char>>)
    requires
        forall|j: int| 0 <= j < lines.len() ==> !ci_contains(query, #[trigger] lines[j]),
    ensures
        spec_search(query, lines) == Seq::<(Seq<char>, Seq<char>)>::empty(),
    decreases lines.len(),
{
    if lines.len() > 0 {
        assert(forall|k: int| 0 <= k < lines.drop_last().len()
            ==> #[trigger] lines.drop_last()[k] == lines[k]);
        lemma_no_match_empty(query, lines.drop_last());
        assert(!ci_contains(query, lines[lines.len() - 1]));
    }
}

/// Compiles the containment test for `query` and scans the rows with it.
/// `None` comes exactly when the pattern engine refuses the compiled
/// query; a query that matches nothing yields `Some` of the empty sequence.
pub fn search_lines(query: &str, lines: &Vec<String>) -> (r: Option<Vec<(String, String)>>)
    ensures
        r is Some <==> engine_accepts(query@),
        r matches Some(pairs) ==> pair_views(pairs@) == spec_search(query@, line_views(lines@)),
{
    match CiMatcher::compile(query) {
        Some(m) => Some(search_rows(&m, lines)),
        None => None,
    }
}

} // verus!
