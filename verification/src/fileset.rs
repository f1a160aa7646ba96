//! The in-memory file set: the working surface one container is unpacked
//! into, transcoded on, and repackaged from.  Entry order is significant:
//! lexicographic name order fixes page order in the output archive.

use vstd::prelude::*;
use vstd::multiset::Multiset;
use vstd::seq_lib::to_multiset_insert;
use vstd::seq_lib::to_multiset_remove;

use crate::names::bytes_eq;

verus! {

/// One file of the working set: an entry name (a relative path, as archive
/// entries carry it) and the file's bytes.
pub struct FileEntry {
    pub name: Vec<u8>,
    pub data: Vec<u8>,
}

impl View for FileEntry {
    type V = (Seq<u8>, Seq<u8>);

    open spec fn view(&self) -> (Seq<u8>, Seq<u8>) {
        (self.name@, self.data@)
    }
}

/// The mathematical contents of a file list: name/data pairs in order.
pub open spec fn views_of(s: Seq<FileEntry>) -> Seq<(Seq<u8>, Seq<u8>)> {
    s.map_values(|e: FileEntry| e@)
}

/// Lexicographic order on byte strings; a prefix comes first.
pub open spec fn lex_le(a: Seq<u8>, b: Seq<u8>) -> bool
    decreases a.len(),
{
    if a.len() == 0 {
        true
    } else if b.len() == 0 {
        false
    } else if a[0] < b[0] {
        true
    } else if a[0] > b[0] {
        false
    } else {
        lex_le(a.skip(1), b.skip(1))
    }
}

/// Lexicographic order is total.
pub proof fn lemma_lex_total(a: Seq<u8>, b: Seq<u8>)
    ensures
        lex_le(a, b) || lex_le(b, a),
    decreases a.len(),
{
    if a.len() == 0 || b.len() == 0 {
    } else if a[0] == b[0] {
        lemma_lex_total(a.skip(1), b.skip(1));
    }
}

/// Entries stand in non-decreasing lexicographic name order.
pub open spec fn sorted_by_name(s: Seq<(Seq<u8>, Seq<u8>)>) -> bool {
    forall|i: int| 0 <= i < s.len() - 1 ==> lex_le(#[trigger] s[i].0, s[i + 1].0)
}

/// Compares two byte strings lexicographically.
pub fn bytes_le(a: &Vec<u8>, b: &Vec<u8>) -> (r: bool)
    ensures
        r == lex_le(a@, b@),
{
    let mut j: usize = 0;
    proof {
        assert(a@.skip(0) =~= a@);
        assert(b@.skip(0) =~= b@);
    }
    loop
        invariant
            j <= a@.len(),
            j <= b@.len(),
            lex_le(a@, b@) == lex_le(a@.skip(j as int), b@.skip(j as int)),
            forall|k: int| 0 <= k < j ==> a@[k] == b@[k],
        decreases a@.len() - j,
    {
        if j == a.len() {
            proof {
                assert(a@.skip(j as int).len() == 0);
            }
            return true;
        }
        if j == b.len() {
            proof {
                assert(b@.skip(j as int).len() == 0);
                assert(a@.skip(j as int).len() > 0);
            }
            return false;
        }
        let x = a[j];
        let y = b[j];
        proof {
            assert(a@.skip(j as int)[0] == a@[j as int]);
            assert(b@.skip(j as int)[0] == b@[j as int]);
            assert(a@.skip(j as int).skip(1) =~= a@.skip(j + 1));
            assert(b@.skip(j as int).skip(1) =~= b@.skip(j + 1));
        }
        if x < y {
            return true;
        }
        if x > y {
            return false;
        }
        j = j + 1;
    }
}

/// Inserting an element into a file list inserts its view into the list's
/// contents at the same place.
proof fn lemma_views_of_insert(s: Seq<FileEntry>, i: int, e: FileEntry)
    requires
        0 <= i <= s.len(),
    ensures
        views_of(s.insert(i, e)) =~= views_of(s).insert(i, e@),
{
}

/// No two entries bear the same name.
pub open spec fn unique_names(s: Seq<(Seq<u8>, Seq<u8>)>) -> bool {
    forall|i: int, j: int| 0 <= i < j < s.len() ==> (#[trigger] s[i]).0 != (#[trigger] s[j]).0
}

/// Some entry bears the name.
pub open spec fn has_name(s: Seq<(Seq<u8>, Seq<u8>)>, name: Seq<u8>) -> bool {
    exists|i: int| 0 <= i < s.len() && (#[trigger] s[i]).0 == name
}

/// The last entry of `s` bearing `name`; meaningful only where `has_name`
/// holds.
pub open spec fn last_with_name(s: Seq<(Seq<u8>, Seq<u8>)>, name: Seq<u8>) -> (Seq<u8>, Seq<u8>)
    decreases s.len(),
{
    if s.len() == 0 {
        (name, Seq::empty())
    } else if s.last().0 == name {
        s.last()
    } else {
        last_with_name(s.drop_last(), name)
    }
}

/// `d` holds, for each name occurring in `src`, exactly one entry: the last
/// entry of `src` bearing that name — the surviving file when every entry is
/// written to one directory in order, later writes overwriting earlier ones.
pub open spec fn dedup_rel(src: Seq<(Seq<u8>, Seq<u8>)>, d: Seq<(Seq<u8>, Seq<u8>)>) -> bool {
    &&& unique_names(d)
    &&& forall|i: int|
        0 <= i < d.len() ==> has_name(src, (#[trigger] d[i]).0) && d[i] == last_with_name(
            src,
            d[i].0,
        )
    &&& forall|j: int| 0 <= j < src.len() ==> has_name(d, (#[trigger] src[j]).0)
}

/// Extending a list by one entry moves `last_with_name` to that entry for
/// its own name and leaves it unchanged for every other.
proof fn lemma_last_with_name_extend(s: Seq<(Seq<u8>, Seq<u8>)>, i: int, name: Seq<u8>)
    requires
        0 <= i < s.len(),
    ensures
        s[i].0 == name ==> last_with_name(s.take(i + 1), name) == s[i],
        s[i].0 != name ==> last_with_name(s.take(i + 1), name) == last_with_name(s.take(i), name),
{
    assert(s.take(i + 1).drop_last() =~= s.take(i));
    assert(s.take(i + 1).last() == s[i]);
}

/// The dedup relation does not depend on the order of the deduplicated list:
/// any permutation of it stands in the same relation.
pub proof fn lemma_dedup_rel_permutation(
    src: Seq<(Seq<u8>, Seq<u8>)>,
    d1: Seq<(Seq<u8>, Seq<u8>)>,
    d2: Seq<(Seq<u8>, Seq<u8>)>,
)
    requires
        dedup_rel(src, d1),
        d1.to_multiset() == d2.to_multiset(),
    ensures
        dedup_rel(src, d2),
{
    broadcast use vstd::seq_lib::group_to_multiset_ensures;
    broadcast use vstd::multiset::group_multiset_axioms;

    assert forall|i: int|
        0 <= i < d2.len() implies has_name(src, (#[trigger] d2[i]).0) && d2[i] == last_with_name(
        src,
        d2[i].0,
    ) by {
        assert(d2.contains(d2[i]));
        assert(d2.to_multiset().count(d2[i]) > 0);
        assert(d1.to_multiset().count(d2[i]) > 0);
        assert(d1.contains(d2[i]));
        let j = choose|j: int| 0 <= j < d1.len() && d1[j] == d2[i];
        assert(has_name(src, d1[j].0) && d1[j] == last_with_name(src, d1[j].0));
    }
    assert(d1.no_duplicates()) by {
        assert forall|i: int, j: int| 0 <= i < d1.len() && 0 <= j < d1.len() && i != j implies d1[i]
            != d1[j] by {
            if i < j {
                assert(d1[i].0 != d1[j].0);
            } else {
                assert(d1[j].0 != d1[i].0);
            }
        }
    }
    d1.lemma_multiset_has_no_duplicates();
    d2.lemma_multiset_has_no_duplicates_conv();
    assert(unique_names(d2)) by {
        assert forall|i: int, j: int| 0 <= i < j < d2.len() implies (#[trigger] d2[i]).0 != (
        #[trigger] d2[j]).0 by {
            if d2[i].0 == d2[j].0 {
                assert(d2[i] == last_with_name(src, d2[i].0));
                assert(d2[j] == last_with_name(src, d2[j].0));
                assert(d2[i] == d2[j]);
                assert(false);
            }
        }
    }
    assert forall|j: int| 0 <= j < src.len() implies has_name(d2, (#[trigger] src[j]).0) by {
        assert(has_name(d1, src[j].0));
        let k = choose|k: int| 0 <= k < d1.len() && (#[trigger] d1[k]).0 == src[j].0;
        assert(d1.contains(d1[k]));
        assert(d1.to_multiset().count(d1[k]) > 0);
        assert(d2.to_multiset().count(d1[k]) > 0);
        assert(d2.contains(d1[k]));
        let m = choose|m: int| 0 <= m < d2.len() && d2[m] == d1[k];
        assert((#[trigger] d2[m]).0 == src[j].0);
    }
}

/// The index of the entry bearing `name`, if one does.
fn find_name_index(out: &Vec<FileEntry>, name: &Vec<u8>) -> (r: Option<usize>)
    ensures
        r matches Some(k) ==> k < out@.len() && out@[k as int].name@ == name@,
        r is None ==> forall|k: int| 0 <= k < out@.len() ==> out@[k].name@ != name@,
{
    let mut j: usize = 0;
    while j < out.len()
        invariant
            j <= out@.len(),
            forall|k: int| 0 <= k < j ==> out@[k].name@ != name@,
        decreases out@.len() - j,
    {
        if bytes_eq(&out[j].name, name) {
            return Some(j);
        }
        j = j + 1;
    }
    None
}

/// A name found in a prefix of a list is found in the longer prefix too.
proof fn lemma_has_name_take_extend(s: Seq<(Seq<u8>, Seq<u8>)>, i: int, name: Seq<u8>)
    requires
        0 <= i < s.len(),
        has_name(s.take(i), name),
    ensures
        has_name(s.take(i + 1), name),
{
    let w = choose|w: int| 0 <= w < s.take(i).len() && (#[trigger] s.take(i)[w]).0 == name;
    assert(s.take(i + 1)[w] == s.take(i)[w]);
}

/// Collapses entries of one name to the last one, as writing them all into
/// one directory would: later entries overwrite earlier ones.  The result's
/// names are distinct and every name of the input survives.
pub fn dedup_by_name(files: Vec<FileEntry>) -> (r: Vec<FileEntry>)
    ensures
        dedup_rel(views_of(files@), views_of(r@)),
        r@.len() <= files@.len(),
        files@.len() > 0 ==> r@.len() > 0,
{
    let mut rest = files;
    let mut out: Vec<FileEntry> = Vec::new();
    let total: usize = rest.len();
    let ghost orig = views_of(rest@);
    proof {
        assert(views_of(rest@) =~= orig.skip(0));
    }
    while rest.len() > 0
        invariant
            orig.len() == total,
            rest@.len() <= orig.len(),
            views_of(rest@) == orig.skip(orig.len() - rest@.len()),
            unique_names(views_of(out@)),
            forall|k: int|
                0 <= k < out@.len() ==> has_name(
                    orig.take(orig.len() - rest@.len()),
                    (#[trigger] views_of(out@)[k]).0,
                ) && views_of(out@)[k] == last_with_name(
                    orig.take(orig.len() - rest@.len()),
                    views_of(out@)[k].0,
                ),
            forall|j: int|
                0 <= j < orig.len() - rest@.len() ==> has_name(
                    views_of(out@),
                    (#[trigger] orig[j]).0,
                ),
            out@.len() <= orig.len() - rest@.len(),
            orig.len() - rest@.len() > 0 ==> out@.len() > 0,
        decreases rest@.len(),
    {
        let ghost i = orig.len() - rest@.len();
        let ghost rlist = rest@;
        let ghost rest0 = views_of(rest@);
        let ghost out_before = views_of(out@);
        let e = rest.remove(0);
        proof {
            assert(views_of(rest@) =~= rest0.skip(1));
            assert(rest0.skip(1) =~= orig.skip(i + 1));
            assert(rest0[0] == rlist[0]@);
            assert(e@ == orig[i]);
            lemma_last_with_name_extend(orig, i, e@.0);
            assert(orig.take(i + 1)[i] == orig[i]);
        }
        match find_name_index(&out, &e.name) {
            Some(k) => {
                let ghost kk = k as int;
                proof {
                    assert(out_before[kk].0 == e@.0);
                }
                out.set(k, e);
                proof {
                    assert(views_of(out@) =~= out_before.update(kk, orig[i]));
                    assert forall|m: int| 0 <= m < out_before.len() implies (
                    #[trigger] views_of(out@)[m]).0 == out_before[m].0 by {}
                    assert(has_name(views_of(out@), orig[i].0)) by {
                        assert((#[trigger] views_of(out@)[kk]).0 == orig[i].0);
                    }
                    assert(unique_names(views_of(out@)));
                    assert forall|m: int| 0 <= m < views_of(out@).len() implies has_name(
                        orig.take(i + 1),
                        (#[trigger] views_of(out@)[m]).0,
                    ) && views_of(out@)[m] == last_with_name(
                        orig.take(i + 1),
                        views_of(out@)[m].0,
                    ) by {
                        if m == kk {
                            assert(views_of(out@)[m] == orig[i]);
                            assert((#[trigger] orig.take(i + 1)[i]).0 == orig[i].0);
                        } else {
                            assert(out_before[m].0 != e@.0);
                            lemma_last_with_name_extend(orig, i, out_before[m].0);
                            lemma_has_name_take_extend(orig, i, out_before[m].0);
                        }
                    }
                }
            },
            None => {
                let ghost ev = e@;
                proof {
                    assert(forall|m: int|
                        0 <= m < out_before.len() ==> (#[trigger] out_before[m]).0 != ev.0);
                }
                out.push(e);
                proof {
                    assert(views_of(out@) =~= out_before.push(ev));
                    assert forall|m: int| 0 <= m < out_before.len() implies (
                    #[trigger] views_of(out@)[m]).0 == out_before[m].0 by {}
                    assert(has_name(views_of(out@), orig[i].0)) by {
                        assert((#[trigger] views_of(out@)[out_before.len() as int]).0
                            == orig[i].0);
                    }
                    assert(unique_names(views_of(out@))) by {
                        assert forall|a: int, b: int|
                            0 <= a < b < views_of(out@).len() implies (
                        #[trigger] views_of(out@)[a]).0 != (#[trigger] views_of(out@)[b]).0 by {
                            if b == out_before.len() {
                                assert(views_of(out@)[a] == out_before[a]);
                            }
                        }
                    }
                    assert forall|m: int| 0 <= m < views_of(out@).len() implies has_name(
                        orig.take(i + 1),
                        (#[trigger] views_of(out@)[m]).0,
                    ) && views_of(out@)[m] == last_with_name(
                        orig.take(i + 1),
                        views_of(out@)[m].0,
                    ) by {
                        if m == out_before.len() {
                            assert(views_of(out@)[m] == orig[i]);
                            assert((#[trigger] orig.take(i + 1)[i]).0 == orig[i].0);
                        } else {
                            assert(views_of(out@)[m] == out_before[m]);
                            assert(out_before[m].0 != ev.0);
                            lemma_last_with_name_extend(orig, i, out_before[m].0);
                            lemma_has_name_take_extend(orig, i, out_before[m].0);
                        }
                    }
                }
            },
        }
        proof {
            assert forall|j: int| 0 <= j < i + 1 implies has_name(
                views_of(out@),
                (#[trigger] orig[j]).0,
            ) by {
                if j < i {
                    assert(has_name(out_before, orig[j].0));
                    let w = choose|w: int|
                        0 <= w < out_before.len() && (#[trigger] out_before[w]).0 == orig[j].0;
                    assert((#[trigger] views_of(out@)[w]).0 == orig[j].0);
                }
            }
        }
    }
    proof {
        assert(orig.take(orig.len() as int) =~= orig);
    }
    out
}

/// The position a name takes in a sorted file list: the first entry it
/// precedes (or equals), or the length when it follows them all.
fn insertion_point(out: &Vec<FileEntry>, name: &Vec<u8>) -> (j: usize)
    ensures
        j <= out@.len(),
        forall|k: int| 0 <= k < j ==> !lex_le(name@, #[trigger] out@[k].name@),
        j < out@.len() ==> lex_le(name@, out@[j as int].name@),
{
    let mut j: usize = 0;
    while j < out.len()
        invariant
            j <= out@.len(),
            forall|k: int| 0 <= k < j ==> !lex_le(name@, #[trigger] out@[k].name@),
        decreases out@.len() - j,
    {
        if bytes_le(name, &out[j].name) {
            return j;
        }
        j = j + 1;
    }
    j
}

/// Sorts a file list by entry name, lexicographically.  The result holds
/// exactly the original files, reordered.
pub fn sort_by_name_entries(v: Vec<FileEntry>) -> (r: Vec<FileEntry>)
    ensures
        sorted_by_name(views_of(r@)),
        views_of(r@).to_multiset() == views_of(v@).to_multiset(),
        r@.len() == v@.len(),
{
    broadcast use vstd::seq_lib::group_to_multiset_ensures;
    broadcast use vstd::multiset::group_multiset_axioms;

    let mut rest = v;
    let mut out: Vec<FileEntry> = Vec::new();
    let ghost orig = views_of(rest@);
    proof {
        assert(views_of(out@) =~= Seq::<(Seq<u8>, Seq<u8>)>::empty());
        assert(views_of(out@).to_multiset().add(views_of(rest@).to_multiset()) =~= orig.to_multiset());
    }
    while rest.len() > 0
        invariant
            sorted_by_name(views_of(out@)),
            views_of(out@).to_multiset().add(views_of(rest@).to_multiset()) == orig.to_multiset(),
            out@.len() + rest@.len() == orig.len(),
        decreases rest@.len(),
    {
        broadcast use vstd::seq_lib::group_to_multiset_ensures;
        broadcast use vstd::multiset::group_multiset_axioms;

        let ghost rest0 = views_of(rest@);
        let e = rest.pop().unwrap();
        proof {
            assert(views_of(rest@) =~= rest0.remove(rest0.len() - 1));
            to_multiset_remove(rest0, rest0.len() - 1);
            assert(rest0[rest0.len() - 1] == e@);
            assert(rest0.contains(e@));
        }
        let j = insertion_point(&out, &e.name);
        let ghost out0 = views_of(out@);
        proof {
            assert(forall|k: int| 0 <= k < out0.len() ==> (#[trigger] out0[k]).0 == out@[k].name@);
            if j < out@.len() {
                assert(lex_le(e@.0, out0[j as int].0));
            }
            assert(forall|k: int| 0 <= k < j ==> lex_le(#[trigger] out0[k].0, e@.0)) by {
                assert forall|k: int| 0 <= k < j implies lex_le(#[trigger] out0[k].0, e@.0) by {
                    assert(!lex_le(e@.0, out@[k].name@));
                    lemma_lex_total(out0[k].0, e@.0);
                }
            }
        }
        out.insert(j, e);
        proof {
            lemma_views_of_insert(out@.remove(j as int), j as int, e);
            assert(out@.remove(j as int).insert(j as int, e) =~= out@);
            assert(views_of(out@) =~= out0.insert(j as int, e@));
            to_multiset_insert(out0, j as int, e@);
            assert(views_of(out@).to_multiset().add(views_of(rest@).to_multiset()) =~= orig.to_multiset());
            assert(sorted_by_name(views_of(out@))) by {
                let s = out0.insert(j as int, e@);
                assert forall|i: int| 0 <= i < s.len() - 1 implies lex_le(
                    #[trigger] s[i].0,
                    s[i + 1].0,
                ) by {
                    if i + 1 < j {
                        assert(s[i] == out0[i] && s[i + 1] == out0[i + 1]);
                    } else if i + 1 == j {
                        assert(s[i] == out0[i] && s[i + 1] == e@);
                    } else if i == j {
                        assert(s[i] == e@ && s[i + 1] == out0[i]);
                    } else {
                        assert(s[i] == out0[i - 1] && s[i + 1] == out0[i]);
                    }
                }
            }
        }
    }
    proof {
        assert(views_of(rest@).to_multiset() =~= Multiset::<(Seq<u8>, Seq<u8>)>::empty());
        assert(views_of(out@).to_multiset() =~= orig.to_multiset());
        vstd::seq_lib::to_multiset_len(views_of(out@));
        vstd::seq_lib::to_multiset_len(orig);
    }
    out
}

} // verus!
