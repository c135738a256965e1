//! Pairing by content: which of the files that found no partner by path
//! have one by checksum.

use vstd::prelude::*;
use crate::file::FileView;
use crate::snapshot::{
    bucket, flat, has_key, index_of, insert, key_index, lemma_index_of_well_formed,
    lemma_insert_well_formed, lemma_key_found, well_formed, Buckets,
};
use crate::stats::{lemma_total_size_concat, lemma_total_size_push, tally, total_size};
use crate::checksum::CheckSum;

verus! {

/// How many files of an entry find a partner on the other side: as many as
/// the other side has under the same checksum, and no more than there are.
pub open spec fn pairs(e: (CheckSum, Seq<FileView>), other: Buckets) -> int {
    let n = bucket(other, e.0).len();
    if e.1.len() <= n {
        e.1.len() as int
    } else {
        n as int
    }
}

/// The files of `a` that find a partner with the same checksum in `b`:
/// of each entry of `a`, in order, the first files, as many as `b` has under
/// that checksum.
pub open spec fn matched_part(a: Buckets, b: Buckets) -> Seq<FileView>
    decreases a.len(),
{
    if a.len() == 0 {
        Seq::empty()
    } else {
        matched_part(a.drop_last(), b) + a.last().1.take(pairs(a.last(), b))
    }
}

/// The files of `a` that find no partner in `b`: of each entry of `a`, in
/// order, the files behind those that `b` can pair.
pub open spec fn surplus_part(a: Buckets, b: Buckets) -> Seq<FileView>
    decreases a.len(),
{
    if a.len() == 0 {
        Seq::empty()
    } else {
        surplus_part(a.drop_last(), b) + a.last().1.skip(pairs(a.last(), b))
    }
}

/// The files of two indexes put one behind the other are the files of the
/// first and then those of the second.
pub proof fn lemma_flat_concat(x: Buckets, y: Buckets)
    ensures
        flat(x + y) == flat(x) + flat(y),
    decreases y.len(),
{
    if y.len() == 0 {
        assert(x + y =~= x);
        assert(flat(x) + flat(y) =~= flat(x));
    } else {
        lemma_flat_concat(x, y.drop_last());
        assert((x + y).drop_last() =~= x + y.drop_last());
        assert((x + y).last() == y.last());
        assert((flat(x) + flat(y.drop_last())) + y.last().1 =~= flat(x) + (flat(y.drop_last())
            + y.last().1));
    }
}

/// The files of an index with one entry.
pub proof fn lemma_flat_single(e: (CheckSum, Seq<FileView>))
    ensures
        flat(seq![e]) == e.1,
{
    assert(seq![e].drop_last() =~= Seq::<(CheckSum, Seq<FileView>)>::empty());
    assert(flat(seq![e].drop_last()) + e.1 =~= e.1);
}

/// The files of an index, cut at one entry: those before it, its own, and
/// those behind it.
pub proof fn lemma_flat_split(b: Buckets, i: int)
    requires
        0 <= i < b.len(),
    ensures
        flat(b) == flat(b.take(i)) + b[i].1 + flat(b.skip(i + 1)),
{
    assert(b =~= b.take(i) + seq![b[i]] + b.skip(i + 1));
    lemma_flat_concat(b.take(i) + seq![b[i]], b.skip(i + 1));
    lemma_flat_concat(b.take(i), seq![b[i]]);
    lemma_flat_single(b[i]);
}

/// An index with one more file holds one more file, and its bytes more.
pub proof fn lemma_flat_insert(b: Buckets, f: FileView)
    ensures
        tally(flat(insert(b, f))) == tally(flat(b)).with_file(f),
{
    if has_key(b, f.check_sum) {
        let i = key_index(b, f.check_sum);
        let e = (f.check_sum, b[i].1.push(f));
        let r = b.update(i, e);
        lemma_flat_split(b, i);
        lemma_flat_split(r, i);
        assert(r.take(i) =~= b.take(i));
        assert(r.skip(i + 1) =~= b.skip(i + 1));
        let front = flat(b.take(i));
        let back = flat(b.skip(i + 1));
        lemma_total_size_concat(front + b[i].1, back);
        lemma_total_size_concat(front, b[i].1);
        lemma_total_size_concat(front + e.1, back);
        lemma_total_size_concat(front, e.1);
        lemma_total_size_push(b[i].1, f);
    } else {
        let e = (f.check_sum, seq![f]);
        assert(b.push(e).drop_last() =~= b);
        lemma_total_size_concat(flat(b), seq![f]);
        lemma_total_size_push(Seq::empty(), f);
        assert(Seq::<FileView>::empty().push(f) =~= seq![f]);
    }
}

/// Grouping files by checksum neither loses nor adds a file.
pub proof fn lemma_flat_index_of(files: Seq<FileView>)
    ensures
        tally(flat(index_of(files))) == tally(files),
    decreases files.len(),
{
    if files.len() > 0 {
        lemma_flat_index_of(files.drop_last());
        lemma_flat_insert(index_of(files.drop_last()), files.last());
    }
}

/// Every file of an index either finds a partner on the other side or
/// does not.
pub proof fn lemma_parts_tally(a: Buckets, b: Buckets)
    ensures
        tally(matched_part(a, b)).plus(tally(surplus_part(a, b))) == tally(flat(a)),
    decreases a.len(),
{
    if a.len() > 0 {
        lemma_parts_tally(a.drop_last(), b);
        let e = a.last();
        let n = pairs(e, b);
        assert(e.1.take(n) + e.1.skip(n) =~= e.1);
        lemma_total_size_concat(e.1.take(n), e.1.skip(n));
        lemma_total_size_concat(matched_part(a.drop_last(), b), e.1.take(n));
        lemma_total_size_concat(surplus_part(a.drop_last(), b), e.1.skip(n));
        lemma_total_size_concat(flat(a.drop_last()), e.1);
    }
}

/// The first entries of an index hold no more than the whole index.
pub proof fn lemma_flat_prefix(a: Buckets, i: int)
    requires
        0 <= i <= a.len(),
    ensures
        tally(flat(a.take(i))).le(tally(flat(a))),
{
    assert(a =~= a.take(i) + a.skip(i));
    lemma_flat_concat(a.take(i), a.skip(i));
    lemma_total_size_concat(flat(a.take(i)), flat(a.skip(i)));
}

/// Both parts of the first entries of an index hold no more than the whole
/// index.
pub proof fn lemma_parts_bounded(a: Buckets, b: Buckets, i: int)
    requires
        0 <= i <= a.len(),
    ensures
        tally(matched_part(a.take(i), b)).le(tally(flat(a))),
        tally(surplus_part(a.take(i), b)).le(tally(flat(a))),
{
    lemma_parts_tally(a.take(i), b);
    lemma_flat_prefix(a, i);
}

/// The parts of the first entries of an index, with one entry more.
pub proof fn lemma_parts_step(a: Buckets, b: Buckets, i: int)
    requires
        0 <= i < a.len(),
    ensures
        matched_part(a.take(i + 1), b) == matched_part(a.take(i), b) + a[i].1.take(pairs(a[i], b)),
        surplus_part(a.take(i + 1), b) == surplus_part(a.take(i), b) + a[i].1.skip(pairs(a[i], b)),
{
    assert(a.take(i + 1).drop_last() =~= a.take(i));
    assert(a.take(i + 1).last() == a[i]);
}

/// A well-formed index without its last entry is well-formed.
pub proof fn lemma_well_formed_drop_last(b: Buckets)
    requires
        well_formed(b),
        b.len() > 0,
    ensures
        well_formed(b.drop_last()),
{
    let r = b.drop_last();
    assert forall|i: int, j: int| 0 <= i < r.len() && 0 <= j < r.len() && i != j implies (#[trigger] r[i]).0 != (#[trigger] r[j]).0 by {
        assert(r[i] == b[i]);
        assert(r[j] == b[j]);
    }
    assert forall|i: int| 0 <= i < r.len() implies (#[trigger] r[i]).1.len() > 0 by {
        assert(r[i] == b[i]);
    }
    assert forall|i: int, k: int| 0 <= i < r.len() && 0 <= k < r[i].1.len() implies (#[trigger] r[i].1[k]).check_sum == r[i].0 by {
        assert(r[i].1[k] == b[i].1[k]);
    }
}

/// The files under a checksum in a well-formed index, told by its last
/// entry: that entry's files where the checksum is the entry's, and what
/// the entries before it hold where it is not.
pub proof fn lemma_bucket_last(b: Buckets, checksum: CheckSum)
    requires
        well_formed(b),
        b.len() > 0,
    ensures
        bucket(b, checksum) == if checksum == b.last().0 {
            b.last().1
        } else {
            bucket(b.drop_last(), checksum)
        },
        checksum == b.last().0 ==> !has_key(b.drop_last(), checksum),
        has_key(b, checksum) == (checksum == b.last().0 || has_key(b.drop_last(), checksum)),
{
    let r = b.drop_last();
    let n = b.len() - 1;
    lemma_well_formed_drop_last(b);
    if checksum == b.last().0 {
        lemma_key_found(b, n);
        if has_key(r, checksum) {
            let i = key_index(r, checksum);
            assert(r[i] == b[i]);
            assert(b[i].0 == b[n].0);
        }
    } else {
        if has_key(r, checksum) {
            let i = key_index(r, checksum);
            assert(r[i] == b[i]);
            lemma_key_found(b, i);
            lemma_key_found(r, i);
        }
        if has_key(b, checksum) {
            let i = key_index(b, checksum);
            assert(i < n);
            assert(r[i] == b[i]);
            lemma_key_found(r, i);
        }
    }
}

/// How many files of `b` find a partner in `a` with one more entry: those
/// that found one in `a`, and under the new entry's checksum as many as
/// both sides have.
pub proof fn lemma_matched_with_entry(b: Buckets, a: Buckets)
    requires
        well_formed(a),
        well_formed(b),
        a.len() > 0,
    ensures
        matched_part(b, a).len() == matched_part(b, a.drop_last()).len() + pairs(a.last(), b),
    decreases b.len(),
{
    let e = a.last();
    let a0 = a.drop_last();
    if b.len() == 0 {
        assert(!has_key(b, e.0));
    } else {
        let x = b.last();
        let b0 = b.drop_last();
        lemma_well_formed_drop_last(b);
        lemma_matched_with_entry(b0, a);
        lemma_bucket_last(a, x.0);
        lemma_bucket_last(b, e.0);
        if x.0 == e.0 {
            assert(bucket(b0, e.0).len() == 0);
            assert(bucket(a0, x.0).len() == 0);
        }
    }
}

/// As many files of `a` find a partner in `b` as files of `b` find one in
/// `a`.
pub proof fn lemma_matched_symmetric(a: Buckets, b: Buckets)
    requires
        well_formed(a),
        well_formed(b),
    ensures
        matched_part(a, b).len() == matched_part(b, a).len(),
    decreases a.len(),
{
    if a.len() == 0 {
        lemma_matched_none(b, a);
    } else {
        lemma_well_formed_drop_last(a);
        lemma_matched_symmetric(a.drop_last(), b);
        lemma_matched_with_entry(b, a);
    }
}

/// Nothing finds a partner in an empty index.
pub proof fn lemma_matched_none(b: Buckets, a: Buckets)
    requires
        a.len() == 0,
    ensures
        matched_part(b, a).len() == 0,
        surplus_part(b, a) == flat(b),
    decreases b.len(),
{
    if b.len() > 0 {
        lemma_matched_none(b.drop_last(), a);
        assert(!has_key(a, b.last().0));
        assert(b.last().1.skip(0) =~= b.last().1);
    }
}

/// The files under a checksum after one more file was added to a
/// well-formed index: the new file joins those of its own checksum.
pub proof fn lemma_bucket_insert(b: Buckets, f: FileView, checksum: CheckSum)
    requires
        well_formed(b),
    ensures
        bucket(insert(b, f), checksum) == if checksum == f.check_sum {
            bucket(b, checksum).push(f)
        } else {
            bucket(b, checksum)
        },
{
    let r = insert(b, f);
    lemma_insert_well_formed(b, f);
    if has_key(b, f.check_sum) {
        let i = key_index(b, f.check_sum);
        lemma_key_found(b, i);
        lemma_key_found(r, i);
        if checksum != f.check_sum {
            if has_key(b, checksum) {
                let j = key_index(b, checksum);
                assert(r[j] == b[j]);
                lemma_key_found(r, j);
            }
            if has_key(r, checksum) {
                let j = key_index(r, checksum);
                assert(r[j] == b[j]);
                lemma_key_found(b, j);
            }
        }
    } else {
        assert(r.drop_last() =~= b);
        lemma_bucket_last(r, checksum);
        assert(Seq::<FileView>::empty().push(f) =~= seq![f]);
    }
}

/// Holds of the files with this checksum.
pub open spec fn with_checksum(checksum: CheckSum) -> spec_fn(FileView) -> bool {
    |f: FileView| f.check_sum == checksum
}

/// Under each checksum the index of some files holds the files with that
/// checksum, in their order.
pub proof fn lemma_bucket_index_of(files: Seq<FileView>, checksum: CheckSum)
    ensures
        bucket(index_of(files), checksum) == files.filter(with_checksum(checksum)),
    decreases files.len(),
{
    reveal(Seq::filter);
    if files.len() == 0 {
        assert(!has_key(index_of(files), checksum));
        assert(files =~= Seq::empty());
    } else {
        lemma_bucket_index_of(files.drop_last(), checksum);
        lemma_index_of_well_formed(files.drop_last());
        lemma_bucket_insert(index_of(files.drop_last()), files.last(), checksum);
    }
}

/// Which files of `a` find a partner depends on the other side only by
/// how many files it has under each checksum.
pub proof fn lemma_matched_by_lengths(a: Buckets, b: Buckets, c: Buckets)
    requires
        forall|checksum: CheckSum| bucket(b, checksum).len() == bucket(c, checksum).len(),
    ensures
        matched_part(a, b) == matched_part(a, c),
        surplus_part(a, b) == surplus_part(a, c),
    decreases a.len(),
{
    if a.len() > 0 {
        lemma_matched_by_lengths(a.drop_last(), b, c);
        assert(bucket(b, a.last().0).len() == bucket(c, a.last().0).len());
    }
}

/// How many files find a partner depends on both sides only by how many
/// files each has under each checksum.
pub proof fn lemma_matched_count(a: Buckets, b: Buckets, c: Buckets, d: Buckets)
    requires
        well_formed(a),
        well_formed(b),
        well_formed(c),
        well_formed(d),
        forall|checksum: CheckSum| bucket(a, checksum).len() == bucket(c, checksum).len(),
        forall|checksum: CheckSum| bucket(b, checksum).len() == bucket(d, checksum).len(),
    ensures
        matched_part(a, b).len() == matched_part(c, d).len(),
{
    lemma_matched_by_lengths(a, b, d);
    lemma_matched_symmetric(a, d);
    lemma_matched_by_lengths(d, a, c);
    lemma_matched_symmetric(d, c);
}

/// Files of both indexes that stand under the same checksum have the
/// same size.
pub open spec fn sizes_agree(a: Buckets, b: Buckets) -> bool {
    forall|i: int, j: int, k: int, l: int|
        0 <= i < a.len() && 0 <= j < b.len() && 0 <= k < a[i].1.len() && 0 <= l < b[j].1.len()
            && a[i].0 == b[j].0 ==> (#[trigger] a[i].1[k]).size == (#[trigger] b[j].1[l]).size
}

/// Of two sequences whose files are all of one size, the first so many
/// hold as many bytes.
pub proof fn lemma_equal_sizes(x: Seq<FileView>, y: Seq<FileView>, n: int)
    requires
        0 <= n <= x.len(),
        n <= y.len(),
        forall|k: int, l: int|
            0 <= k < x.len() && 0 <= l < y.len() ==> (#[trigger] x[k]).size == (#[trigger] y[l]).size,
    ensures
        total_size(x.take(n)) == total_size(y.take(n)),
    decreases n,
{
    if n > 0 {
        lemma_equal_sizes(x, y, n - 1);
        assert(x.take(n).drop_last() =~= x.take(n - 1));
        assert(y.take(n).drop_last() =~= y.take(n - 1));
        assert(x.take(n).last() == x[n - 1]);
        assert(y.take(n).last() == y[n - 1]);
    }
}

/// Sizes that agree between two indexes agree without the last entry of
/// either.
pub proof fn lemma_sizes_agree_drop_last(a: Buckets, b: Buckets)
    requires
        sizes_agree(a, b),
    ensures
        a.len() > 0 ==> sizes_agree(a.drop_last(), b),
        b.len() > 0 ==> sizes_agree(a, b.drop_last()),
{
    if a.len() > 0 {
        let a0 = a.drop_last();
        assert forall|i: int, j: int, k: int, l: int|
            0 <= i < a0.len() && 0 <= j < b.len() && 0 <= k < a0[i].1.len() && 0 <= l < b[j].1.len()
                && a0[i].0 == b[j].0 implies (#[trigger] a0[i].1[k]).size == (
        #[trigger] b[j].1[l]).size by {
            assert(a0[i] == a[i]);
            assert(a[i].1[k].size == b[j].1[l].size);
        }
    }
    if b.len() > 0 {
        let b0 = b.drop_last();
        assert forall|i: int, j: int, k: int, l: int|
            0 <= i < a.len() && 0 <= j < b0.len() && 0 <= k < a[i].1.len() && 0 <= l < b0[j].1.len()
                && a[i].0 == b0[j].0 implies (#[trigger] a[i].1[k]).size == (
        #[trigger] b0[j].1[l]).size by {
            assert(b0[j] == b[j]);
            assert(a[i].1[k].size == b[j].1[l].size);
        }
    }
}

/// How many bytes the files of `b` hold that find a partner in `a` with
/// one more entry: those that found one in `a`, and as many bytes as the
/// paired files of the new entry hold.
pub proof fn lemma_matched_bytes_with_entry(b: Buckets, a: Buckets)
    requires
        well_formed(a),
        well_formed(b),
        sizes_agree(a, b),
        a.len() > 0,
    ensures
        total_size(matched_part(b, a)) == total_size(matched_part(b, a.drop_last())) + total_size(
            a.last().1.take(pairs(a.last(), b)),
        ),
    decreases b.len(),
{
    let e = a.last();
    let a0 = a.drop_last();
    if b.len() == 0 {
        assert(!has_key(b, e.0));
        assert(e.1.take(0) =~= Seq::empty());
    } else {
        let x = b.last();
        let b0 = b.drop_last();
        lemma_well_formed_drop_last(b);
        lemma_sizes_agree_drop_last(a, b);
        lemma_matched_bytes_with_entry(b0, a);
        lemma_bucket_last(a, x.0);
        lemma_bucket_last(b, e.0);
        lemma_total_size_concat(matched_part(b0, a), x.1.take(pairs(x, a)));
        lemma_total_size_concat(matched_part(b0, a0), x.1.take(pairs(x, a0)));
        if x.0 == e.0 {
            assert(bucket(b0, e.0).len() == 0);
            assert(bucket(a0, x.0).len() == 0);
            assert(x.1.take(0) =~= Seq::empty());
            assert(e.1.take(0) =~= Seq::empty());
            let n = pairs(x, a);
            assert(n == pairs(e, b));
            assert forall|k: int, l: int| 0 <= k < x.1.len() && 0 <= l < e.1.len() implies (
            #[trigger] x.1[k]).size == (#[trigger] e.1[l]).size by {
                assert(a[a.len() - 1].1[l].size == b[b.len() - 1].1[k].size);
            }
            lemma_equal_sizes(x.1, e.1, n);
        }
    }
}

/// Where sizes agree, the files of `a` that find a partner in `b` hold as
/// many bytes as the files of `b` that find one in `a`.
pub proof fn lemma_matched_bytes_symmetric(a: Buckets, b: Buckets)
    requires
        well_formed(a),
        well_formed(b),
        sizes_agree(a, b),
    ensures
        tally(matched_part(a, b)) == tally(matched_part(b, a)),
    decreases a.len(),
{
    lemma_matched_symmetric(a, b);
    if a.len() == 0 {
        lemma_matched_none(b, a);
        assert(matched_part(b, a) =~= Seq::empty());
    } else {
        lemma_well_formed_drop_last(a);
        lemma_sizes_agree_drop_last(a, b);
        lemma_matched_bytes_symmetric(a.drop_last(), b);
        lemma_matched_bytes_with_entry(b, a);
        lemma_total_size_concat(
            matched_part(a.drop_last(), b),
            a.last().1.take(pairs(a.last(), b)),
        );
    }
}

/// Every file of the index of some files is one of these files and stands
/// under its own checksum.
pub proof fn lemma_index_of_holds(files: Seq<FileView>, i: int, k: int)
    requires
        0 <= i < index_of(files).len(),
        0 <= k < index_of(files)[i].1.len(),
    ensures
        files.contains(index_of(files)[i].1[k]),
        index_of(files)[i].1[k].check_sum == index_of(files)[i].0,
{
    let b = index_of(files);
    lemma_index_of_well_formed(files);
    lemma_key_found(b, i);
    lemma_bucket_index_of(files, b[i].0);
    let sub = files.filter(with_checksum(b[i].0));
    assert(sub.contains(sub[k]));
    files.lemma_filter_contains_rev(with_checksum(b[i].0), sub[k]);
}

} // verus!
