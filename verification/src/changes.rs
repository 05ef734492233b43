//! Change-frequency bookkeeping: given the file names touched by a
//! repository's recent commits, count how many commits touched each file
//! and keep the most frequently changed ones.
//!
//! Fetching commits is a collaborator's job; this module only counts and
//! orders plain values.  Names are compared by character content.

use itertools::Itertools;
use vstd::prelude::*;

verus! {

/// File names paired with how many commits changed each of them.
pub type ChangedFileCounts = Vec<(String, u32)>;

/// The character content of each name in the sequence.
pub open spec fn name_views(s: Seq<String>) -> Seq<Seq<char>> {
    s.map_values(|n: String| n@)
}

/// How many entries of `names` spell exactly `name`.
pub open spec fn occurrence_count(names: Seq<Seq<char>>, name: Seq<char>) -> nat
    decreases names,
{
    if names.len() == 0 {
        0
    } else {
        occurrence_count(names.drop_last(), name) + (if names.last() == name {
            1nat
        } else {
            0nat
        })
    }
}

/// The distinct names of the sequence, in order of first occurrence.
pub open spec fn distinct_in_order(names: Seq<Seq<char>>) -> Seq<Seq<char>>
    decreases names,
{
    if names.len() == 0 {
        Seq::empty()
    } else {
        let rest = distinct_in_order(names.drop_last());
        if rest.contains(names.last()) {
            rest
        } else {
            rest.push(names.last())
        }
    }
}

/// A name occurs no more often than the sequence is long.
proof fn lemma_occurrence_le_len(names: Seq<Seq<char>>, name: Seq<char>)
    ensures
        occurrence_count(names, name) <= names.len(),
    decreases names,
{
    if names.len() > 0 {
        lemma_occurrence_le_len(names.drop_last(), name);
    }
}

/// A name occurs at least once exactly when the sequence contains it.
proof fn lemma_occurrence_contains(names: Seq<Seq<char>>, name: Seq<char>)
    ensures
        occurrence_count(names, name) > 0 <==> names.contains(name),
    decreases names,
{
    if names.len() > 0 {
        lemma_occurrence_contains(names.drop_last(), name);
        assert(names.contains(name) <==> (names.drop_last().contains(name) || names.last()
            == name)) by {
            if names.contains(name) {
                let w = choose|w: int| 0 <= w < names.len() && names[w] == name;
                if w < names.len() - 1 {
                    assert(names.drop_last()[w] == name);
                }
            }
            if names.drop_last().contains(name) {
                let w = choose|w: int|
                    0 <= w < names.drop_last().len() && names.drop_last()[w] == name;
                assert(names[w] == name);
            }
        }
    }
}

/// The distinct listing holds exactly the names the sequence contains.
proof fn lemma_distinct_contains(names: Seq<Seq<char>>, name: Seq<char>)
    ensures
        distinct_in_order(names).contains(name) <==> names.contains(name),
    decreases names,
{
    if names.len() > 0 {
        lemma_distinct_contains(names.drop_last(), name);
        let rest = distinct_in_order(names.drop_last());
        assert(names.contains(name) <==> (names.drop_last().contains(name) || names.last()
            == name)) by {
            if names.contains(name) {
                let w = choose|w: int| 0 <= w < names.len() && names[w] == name;
                if w < names.len() - 1 {
                    assert(names.drop_last()[w] == name);
                }
            }
            if names.drop_last().contains(name) {
                let w = choose|w: int|
                    0 <= w < names.drop_last().len() && names.drop_last()[w] == name;
                assert(names[w] == name);
            }
        }
        if !rest.contains(names.last()) {
            assert forall|x: Seq<char>| rest.push(names.last()).contains(x) implies rest.contains(
                x,
            ) || x == names.last() by {
                let w = choose|w: int|
                    0 <= w < rest.push(names.last()).len() && rest.push(names.last())[w] == x;
                if w < rest.len() {
                    assert(rest[w] == x);
                }
            }
            assert(rest.contains(name) || names.last() == name ==> rest.push(
                names.last(),
            ).contains(name)) by {
                if rest.contains(name) {
                    let w = choose|w: int| 0 <= w < rest.len() && rest[w] == name;
                    assert(rest.push(names.last())[w] == name);
                } else if names.last() == name {
                    assert(rest.push(names.last())[rest.len() as int] == name);
                }
            }
        }
    }
}

/// The distinct listing never repeats a name.
proof fn lemma_distinct_no_duplicates(names: Seq<Seq<char>>)
    ensures
        forall|k: int, l: int|
            0 <= k < l < distinct_in_order(names).len() ==> distinct_in_order(names)[k]
                != distinct_in_order(names)[l],
    decreases names,
{
    if names.len() > 0 {
        lemma_distinct_no_duplicates(names.drop_last());
        let rest = distinct_in_order(names.drop_last());
        if !rest.contains(names.last()) {
            assert forall|k: int, l: int|
                0 <= k < l < rest.push(names.last()).len() implies rest.push(names.last())[k]
                != rest.push(names.last())[l] by {
                if l < rest.len() {
                } else {
                    assert(rest.push(names.last())[l] == names.last());
                    assert(!rest.contains(names.last()));
                    assert(rest.push(names.last())[k] == rest[k]);
                    assert(rest.contains(rest[k])) by {
                        assert(0 <= k < rest.len() && rest[k] == rest[k]);
                    }
                }
            }
        }
    }
}

proof fn lemma_occurrence_take_step(names: Seq<Seq<char>>, name: Seq<char>, i: int)
    requires
        0 <= i < names.len(),
    ensures
        occurrence_count(names.take(i + 1), name) == occurrence_count(names.take(i), name) + (
        if names[i] == name {
            1nat
        } else {
            0nat
        }),
{
    assert(names.take(i + 1).drop_last() =~= names.take(i));
    assert(names.take(i + 1).last() == names[i]);
}

proof fn lemma_distinct_take_step(names: Seq<Seq<char>>, i: int)
    requires
        0 <= i < names.len(),
    ensures
        distinct_in_order(names.take(i + 1)) == (if distinct_in_order(names.take(i)).contains(
            names[i],
        ) {
            distinct_in_order(names.take(i))
        } else {
            distinct_in_order(names.take(i)).push(names[i])
        }),
{
    assert(names.take(i + 1).drop_last() =~= names.take(i));
    assert(names.take(i + 1).last() == names[i]);
}

/// The index of the entry carrying `name`, if one exists.
fn find_name(counts: &ChangedFileCounts, name: &String) -> (r: Option<usize>)
    ensures
        match r {
            Some(j) => 0 <= j < counts@.len() && counts@[j as int].0@ == name@,
            None => forall|k: int| 0 <= k < counts@.len() ==> counts@[k].0@ != name@,
        },
{
    let mut j: usize = 0;
    while j < counts.len()
        invariant
            j <= counts@.len(),
            forall|k: int| 0 <= k < j ==> counts@[k].0@ != name@,
        decreases counts@.len() - j,
    {
        if counts[j].0 == *name {
            return Some(j);
        }
        j = j + 1;
    }
    None
}

/// Counts how many entries of `filenames` spell each name: one entry per
/// distinct name, in order of first occurrence, paired with how often the
/// name occurs.  We count how many commits touched a file, not how many
/// hunks one commit changed in it, so each commit contributes each of its
/// file names once.
pub fn count_file_changes(filenames: &Vec<String>) -> (r: ChangedFileCounts)
    requires
        filenames@.len() <= u32::MAX,
    ensures
        r@.map_values(|p: (String, u32)| p.0@) == distinct_in_order(name_views(filenames@)),
        forall|k: int|
            0 <= k < r@.len() ==> r@[k].1 == occurrence_count(name_views(filenames@), r@[k].0@),
{
    let ghost vs = name_views(filenames@);
    let mut counts: ChangedFileCounts = Vec::new();
    let mut i: usize = 0;
    while i < filenames.len()
        invariant
            filenames@.len() <= u32::MAX,
            i <= filenames@.len(),
            vs == name_views(filenames@),
            counts@.map_values(|p: (String, u32)| p.0@) == distinct_in_order(vs.take(i as int)),
            forall|k: int|
                0 <= k < counts@.len() ==> counts@[k].1 == occurrence_count(
                    vs.take(i as int),
                    counts@[k].0@,
                ),
        decreases filenames@.len() - i,
    {
        let ghost prefix = vs.take(i as int);
        let ghost names_before = counts@.map_values(|p: (String, u32)| p.0@);
        proof {
            assert(vs[i as int] == filenames@[i as int]@);
            lemma_distinct_take_step(vs, i as int);
        }
        match find_name(&counts, &filenames[i]) {
            Some(j) => {
                proof {
                    assert(distinct_in_order(prefix).contains(vs[i as int])) by {
                        assert(names_before[j as int] == vs[i as int]);
                    }
                    lemma_distinct_no_duplicates(prefix);
                    lemma_occurrence_le_len(prefix, vs[i as int]);
                }
                let ghost before = counts@;
                let entry = counts.remove(j);
                let updated_count = entry.1 + 1;
                counts.insert(j, (entry.0, updated_count));
                proof {
                    assert(counts@ =~= before.update(j as int, (entry.0, updated_count)));
                    assert(counts@.map_values(|p: (String, u32)| p.0@) =~= names_before);
                    assert forall|k: int| 0 <= k < counts@.len() implies counts@[k].1
                        == occurrence_count(vs.take(i + 1), counts@[k].0@) by {
                        lemma_occurrence_take_step(vs, counts@[k].0@, i as int);
                        if k != j {
                            assert(names_before[k] != names_before[j as int]);
                        }
                    }
                }
            },
            None => {
                proof {
                    assert(!distinct_in_order(prefix).contains(vs[i as int])) by {
                        if distinct_in_order(prefix).contains(vs[i as int]) {
                            let w = choose|w: int|
                                0 <= w < distinct_in_order(prefix).len() && distinct_in_order(
                                    prefix,
                                )[w] == vs[i as int];
                            assert(names_before[w] == vs[i as int]);
                        }
                    }
                    lemma_distinct_contains(prefix, vs[i as int]);
                    lemma_occurrence_contains(prefix, vs[i as int]);
                }
                let name = filenames[i].clone();
                counts.push((name, 1));
                proof {
                    assert(counts@.map_values(|p: (String, u32)| p.0@) =~= names_before.push(
                        vs[i as int],
                    ));
                    assert forall|k: int| 0 <= k < counts@.len() implies counts@[k].1
                        == occurrence_count(vs.take(i + 1), counts@[k].0@) by {
                        lemma_occurrence_take_step(vs, counts@[k].0@, i as int);
                        if k < counts@.len() - 1 {
                            assert(counts@[k].0@ != vs[i as int]);
                        }
                    }
                }
            },
        }
        i = i + 1;
    }
    proof {
        assert(vs.take(filenames@.len() as int) =~= vs);
    }
    counts
}

/// Whether the change counts of a listing never increase from left to
/// right.
pub open spec fn counts_descending(s: Seq<(String, u32)>) -> bool {
    forall|i: int, j: int| 0 <= i <= j < s.len() ==> s[i].1 >= s[j].1
}

/// Orders two change counts so that the larger one comes first.
fn compare_counts_desc(a: u32, b: u32) -> (r: core::cmp::Ordering)
    ensures
        r == core::cmp::Ordering::Less <==> a > b,
        r == core::cmp::Ordering::Equal <==> a == b,
        r == core::cmp::Ordering::Greater <==> a < b,
{
    if a > b {
        core::cmp::Ordering::Less
    } else if a < b {
        core::cmp::Ordering::Greater
    } else {
        core::cmp::Ordering::Equal
    }
}

/// Relies on itertools' `Itertools::sorted_by`: a stable sort of all the
/// elements by the given comparator, handed back in a `Vec` with nothing
/// added or dropped.  With the descending-by-count comparator the entries
/// come back as a permutation of the input whose counts never increase.
#[verifier::external_body]
fn sorted_by_change_count(entries: ChangedFileCounts) -> (r: ChangedFileCounts)
    ensures
        r@.to_multiset() == entries@.to_multiset(),
        counts_descending(r@),
{
    entries.into_iter().sorted_by(|a, b| compare_counts_desc(a.1, b.1)).collect()
}

/// The most frequently changed files: every name the commits touched,
/// counted, ordered by descending change count and cut to the requested
/// length.  Between names tied on their count the order is left open.
pub fn top_changed_files(filenames: &Vec<String>, number_of_files: usize) -> (r: ChangedFileCounts)
    requires
        filenames@.len() <= u32::MAX,
    ensures
        counts_descending(r@),
        r@.len() == (if number_of_files <= distinct_in_order(name_views(filenames@)).len() {
            number_of_files as int
        } else {
            distinct_in_order(name_views(filenames@)).len() as int
        }),
        forall|k: int|
            0 <= k < r@.len() ==> distinct_in_order(name_views(filenames@)).contains(r@[k].0@)
                && r@[k].1 == occurrence_count(name_views(filenames@), r@[k].0@),
        forall|k: int, l: int| 0 <= k < l < r@.len() ==> r@[k].0@ != r@[l].0@,
        forall|n: Seq<char>, k: int|
            (distinct_in_order(name_views(filenames@)).contains(n) && (forall|l: int|
                0 <= l < r@.len() ==> r@[l].0@ != n) && 0 <= k < r@.len()) ==> occurrence_count(
                name_views(filenames@),
                n,
            ) <= r@[k].1,
{
    let ghost vs = name_views(filenames@);
    let ghost listing = distinct_in_order(vs);
    let counts = count_file_changes(filenames);
    let ghost c = counts@;
    let mut sorted = sorted_by_change_count(counts);
    let ghost full = sorted@;
    proof {
        broadcast use vstd::seq_lib::group_to_multiset_ensures;

        c.to_multiset_ensures();
        full.to_multiset_ensures();
        assert(full.len() == c.len());
        assert(c.len() == listing.len()) by {
            assert(c.map_values(|p: (String, u32)| p.0@).len() == listing.len());
        }
        lemma_distinct_no_duplicates(vs);
        assert forall|k: int, l: int| 0 <= k < l < c.len() implies c[k] != c[l] by {
            assert(c.map_values(|p: (String, u32)| p.0@)[k] == c[k].0@);
            assert(c.map_values(|p: (String, u32)| p.0@)[l] == c[l].0@);
            assert(listing[k] != listing[l]);
        }
        assert(c.no_duplicates());
        c.lemma_multiset_has_no_duplicates();
        full.lemma_multiset_has_no_duplicates_conv();
        // every entry of the sorted listing is an entry of the counts
        assert forall|k: int| 0 <= k < full.len() implies c.contains(#[trigger] full[k]) by {
            assert(full.contains(full[k]));
            assert(full.to_multiset().count(full[k]) > 0);
        }
        assert forall|k: int| 0 <= k < full.len() implies listing.contains(#[trigger] full[k].0@)
            && full[k].1 == occurrence_count(vs, full[k].0@) by {
            let w = choose|w: int| 0 <= w < c.len() && c[w] == full[k];
            assert(c.map_values(|p: (String, u32)| p.0@)[w] == c[w].0@);
            assert(listing[w] == full[k].0@);
        }
        // distinct pairs stay distinct, and so do their names
        assert forall|k: int, l: int| 0 <= k < l < full.len() implies full[k].0@ != full[l].0@ by {
            assert(full.no_duplicates());
            let wk = choose|w: int| 0 <= w < c.len() && c[w] == full[k];
            let wl = choose|w: int| 0 <= w < c.len() && c[w] == full[l];
            assert(c.map_values(|p: (String, u32)| p.0@)[wk] == listing[wk]);
            assert(c.map_values(|p: (String, u32)| p.0@)[wl] == listing[wl]);
            if wk != wl {
                assert(listing[wk] != listing[wl]);
            }
        }
    }
    if number_of_files < sorted.len() {
        sorted.truncate(number_of_files);
    }
    proof {
        assert(sorted@ =~= full.take(sorted@.len() as int));
        broadcast use vstd::seq_lib::group_to_multiset_ensures;

        // a name kept out of the cut changed at most as often as any kept
        assert forall|n: Seq<char>|
            listing.contains(n) && (forall|k: int| 0 <= k < sorted@.len() ==> sorted@[k].0@ != n)
                implies forall|k: int|
            0 <= k < sorted@.len() ==> occurrence_count(vs, n) <= sorted@[k].1 by {
            let w = choose|w: int| 0 <= w < listing.len() && listing[w] == n;
            assert(c.map_values(|p: (String, u32)| p.0@)[w] == c[w].0@);
            assert(c[w].0@ == n);
            assert(c[w].1 == occurrence_count(vs, n));
            assert(c.contains(c[w]));
            assert(full.to_multiset().count(c[w]) > 0);
            assert(full.contains(c[w]));
            let jj = choose|jj: int| 0 <= jj < full.len() && full[jj] == c[w];
            if jj < sorted@.len() {
                assert(sorted@[jj] == full[jj]);
                assert(sorted@[jj].0@ == n);
            }
            assert(jj >= sorted@.len());
            assert forall|k: int| 0 <= k < sorted@.len() implies occurrence_count(vs, n)
                <= sorted@[k].1 by {
                assert(full[k].1 >= full[jj].1);
            }
        }
    }
    sorted
}

} // verus!
