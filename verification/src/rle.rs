//! Run-length encoded data: a sequence of runs, each a byte sequence and the
//! number of times it is repeated, and its expansion back to raw bytes.

use vstd::prelude::*;

verus! {

/// Bytes in their compressed form, as they stand in a file.
#[derive(Clone, PartialEq, Eq, Hash)]
pub struct RawCompressedBytes(pub Vec<u8>);

/// One run: `run`, repeated `copies` times.
#[derive(Debug, Clone, PartialEq, Eq)]
pub struct CompressedRun {
    pub copies: usize,
    pub run: Vec<u8>,
}

/// A sequence of runs. The order matters: the runs are expanded one after
/// the other, never merged and never reordered.
#[derive(Debug, Clone, PartialEq, Eq)]
pub struct CompressedData(pub Vec<CompressedRun>);

impl View for RawCompressedBytes {
    type V = Seq<u8>;

    open spec fn view(&self) -> Seq<u8> {
        self.0@
    }
}

impl View for CompressedRun {
    type V = (nat, Seq<u8>);

    open spec fn view(&self) -> (nat, Seq<u8>) {
        (self.copies as nat, self.run@)
    }
}

impl View for CompressedData {
    type V = Seq<(nat, Seq<u8>)>;

    open spec fn view(&self) -> Seq<(nat, Seq<u8>)> {
        self.0@.map_values(|r: CompressedRun| r@)
    }
}

impl Default for RawCompressedBytes {
    fn default() -> (r: Self)
        ensures
            r@ == Seq::<u8>::empty(),
    {
        RawCompressedBytes(Vec::new())
    }
}

impl Default for CompressedData {
    fn default() -> (r: Self)
        ensures
            r@ == Seq::<(nat, Seq<u8>)>::empty(),
    {
        let r = CompressedData(Vec::new());
        assert(r@ =~= Seq::<(nat, Seq<u8>)>::empty());
        r
    }
}

/// `run`, `copies` times in a row.
pub open spec fn repeated(run: Seq<u8>, copies: nat) -> Seq<u8>
    decreases copies,
{
    if copies == 0 {
        Seq::empty()
    } else {
        repeated(run, (copies - 1) as nat) + run
    }
}

/// The bytes that `runs` stand for: each run repeated as often as it says,
/// one after the other in the order of `runs`.
pub open spec fn expanded(runs: Seq<(nat, Seq<u8>)>) -> Seq<u8>
    decreases runs.len(),
{
    if runs.len() == 0 {
        Seq::empty()
    } else {
        expanded(runs.drop_last()) + repeated(runs.last().1, runs.last().0)
    }
}

/// Repeating the empty sequence gives the empty sequence, however often.
pub proof fn lemma_repeated_empty(copies: nat)
    ensures
        repeated(Seq::empty(), copies) == Seq::<u8>::empty(),
    decreases copies,
{
    if copies > 0 {
        lemma_repeated_empty((copies - 1) as nat);
        assert(repeated(Seq::empty(), copies) =~= Seq::<u8>::empty());
    }
}

/// `run` repeated `copies` times is `copies` times as long as `run`, and its
/// byte at `i` is the byte of `run` at `i` modulo the length of `run`.
pub proof fn lemma_repeated_bytes(run: Seq<u8>, copies: nat)
    ensures
        repeated(run, copies).len() == copies * run.len(),
        forall|i: int|
            0 <= i < copies * run.len() ==> #[trigger] repeated(run, copies)[i] == run[i
                % (run.len() as int)],
    decreases copies,
{
    if copies > 0 {
        let fewer = (copies - 1) as nat;
        lemma_repeated_bytes(run, fewer);
        let n = run.len() as int;
        assert(copies * n == fewer * n + n) by (nonlinear_arith)
            requires
                copies == fewer + 1,
        ;
        assert forall|i: int| 0 <= i < copies * n implies #[trigger] repeated(run, copies)[i]
            == run[i % n] by {
            if i >= fewer * n {
                let k = i - fewer * n;
                assert(0 <= k < n);
                assert(i % n == k) by (nonlinear_arith)
                    requires
                        i == fewer * n + k,
                        0 <= k < n,
                ;
            }
        }
    } else {
        assert(copies * run.len() == 0) by (nonlinear_arith)
            requires
                copies == 0,
        ;
    }
}

/// Expanding runs one after the other is expanding them all: the expansion
/// of two sequences of runs joined is the two expansions joined.
pub proof fn lemma_expanded_concat(a: Seq<(nat, Seq<u8>)>, b: Seq<(nat, Seq<u8>)>)
    ensures
        expanded(a + b) == expanded(a) + expanded(b),
    decreases b.len(),
{
    if b.len() == 0 {
        assert(a + b =~= a);
        assert(expanded(a) + expanded(b) =~= expanded(a));
    } else {
        lemma_expanded_concat(a, b.drop_last());
        assert((a + b).drop_last() =~= a + b.drop_last());
        assert((a + b).last() == b.last());
        assert(expanded(a + b) =~= expanded(a) + expanded(b));
    }
}

/// A single run expands to itself repeated.
pub proof fn lemma_expanded_single(copies: nat, run: Seq<u8>)
    ensures
        expanded(seq![(copies, run)]) == repeated(run, copies),
{
    let runs = seq![(copies, run)];
    assert(runs.drop_last() =~= Seq::<(nat, Seq<u8>)>::empty());
    assert(expanded(runs.drop_last()) =~= Seq::<u8>::empty());
    assert(runs.last() == (copies, run));
    assert(expanded(runs) =~= repeated(run, copies));
}

/// The grouping of `bytes` into runs: every maximal stretch of one byte is one
/// run of that byte, with the length of the stretch as its number of copies.
///
/// Read from the back: the last byte lengthens the last run of what stands
/// before it where that run holds the same byte, and opens a run of its own
/// where it does not.
pub open spec fn grouped(bytes: Seq<u8>) -> Seq<(nat, Seq<u8>)>
    decreases bytes.len(),
{
    if bytes.len() == 0 {
        Seq::empty()
    } else {
        let before = grouped(bytes.drop_last());
        let run = seq![bytes.last()];
        if before.len() > 0 && before.last().1 == run {
            before.drop_last().push((before.last().0 + 1, run))
        } else {
            before.push((1, run))
        }
    }
}

/// The runs are maximal groups of one byte: every run holds a single byte
/// that is repeated at least once, and no two neighbours hold the same byte.
pub open spec fn is_grouped(runs: Seq<(nat, Seq<u8>)>) -> bool {
    &&& forall|i: int| 0 <= i < runs.len() ==> (#[trigger] runs[i]).0 >= 1 && runs[i].1.len() == 1
    &&& forall|i: int, j: int|
        0 <= i && j == i + 1 && j < runs.len() ==> (#[trigger] runs[i]).1 != (#[trigger] runs[j]).1
}

/// The grouping of a sequence that is not empty ends in a run of its last
/// byte.
pub proof fn lemma_grouped_last(bytes: Seq<u8>)
    requires
        bytes.len() > 0,
    ensures
        grouped(bytes).len() > 0,
        grouped(bytes).last().0 >= 1,
        grouped(bytes).last().1 == seq![bytes.last()],
{
}

/// The grouping is made of maximal groups.
pub proof fn lemma_grouped_is_grouped(bytes: Seq<u8>)
    ensures
        is_grouped(grouped(bytes)),
    decreases bytes.len(),
{
    if bytes.len() > 0 {
        lemma_grouped_is_grouped(bytes.drop_last());
        let before = grouped(bytes.drop_last());
        let after = grouped(bytes);
        assert forall|i: int| 0 <= i < after.len() implies (#[trigger] after[i]).0 >= 1
            && after[i].1.len() == 1 by {
            if i < after.len() - 1 {
                assert(after[i] == before[i]);
            }
        }
        assert forall|i: int, j: int|
            0 <= i && j == i + 1 && j < after.len() implies (#[trigger] after[i]).1 != (
        #[trigger] after[j]).1 by {
            assert(after[i] == before[i]);
            if j < after.len() - 1 {
                assert(after[j] == before[j]);
            } else if before.len() > 0 && before.last().1 == seq![bytes.last()] {
                assert(before[i].1 != before[j].1);
            }
        }
    }
}

/// Compressing and then decompressing gives the bytes back: the grouping of
/// `bytes`, which is what `compress` returns, expands to `bytes`, which is
/// what `decompress` then returns.
pub proof fn lemma_grouped_expands(bytes: Seq<u8>)
    ensures
        expanded(grouped(bytes)) == bytes,
    decreases bytes.len(),
{
    if bytes.len() == 0 {
        assert(expanded(grouped(bytes)) =~= bytes);
    } else {
        lemma_grouped_expands(bytes.drop_last());
        let before = grouped(bytes.drop_last());
        let after = grouped(bytes);
        let run = seq![bytes.last()];
        if before.len() > 0 && before.last().1 == run {
            assert(after.drop_last() =~= before.drop_last());
            assert(repeated(run, after.last().0) == repeated(run, before.last().0) + run);
            assert(expanded(after) =~= expanded(before) + run);
        } else {
            assert(after.drop_last() =~= before);
            assert(repeated(run, 1) =~= run) by {
                assert(repeated(run, 0) =~= Seq::<u8>::empty());
            }
        }
        assert(bytes =~= bytes.drop_last() + run);
    }
}

/// A stretch of one byte that begins where the byte before it differs is one
/// run of the grouping: the grouping up to the end of the stretch is the
/// grouping up to its start, and then that run.
pub proof fn lemma_grouped_stretch(bytes: Seq<u8>, from: int, to: int)
    requires
        0 <= from < to <= bytes.len(),
        forall|k: int| from <= k < to ==> bytes[k] == bytes[from],
        from > 0 ==> bytes[from - 1] != bytes[from],
    ensures
        grouped(bytes.take(to)) == grouped(bytes.take(from)).push(
            ((to - from) as nat, seq![bytes[from]]),
        ),
    decreases to - from,
{
    let run = seq![bytes[from]];
    let upto = bytes.take(to);
    assert(upto.drop_last() =~= bytes.take(to - 1));
    assert(upto.last() == bytes[from]);
    let before = grouped(bytes.take(to - 1));
    if to - 1 == from {
        if from > 0 {
            lemma_grouped_last(bytes.take(from));
            assert(bytes.take(from).last() == bytes[from - 1]);
            assert(before.last().1[0] == bytes[from - 1]);
        }
    } else {
        lemma_grouped_stretch(bytes, from, to - 1);
        let start = grouped(bytes.take(from));
        assert(before.drop_last() =~= start);
    }
}

/// `run`, `copies` times in a row.
fn repeat(run: &Vec<u8>, copies: usize) -> (r: Vec<u8>)
    ensures
        r@ == repeated(run@, copies as nat),
{
    let mut buffer: Vec<u8> = Vec::new();
    if run.len() == 0 {
        proof {
            assert(run@ =~= Seq::<u8>::empty());
            lemma_repeated_empty(copies as nat);
        }
        return buffer;
    }
    let mut done: usize = 0;
    while done < copies
        invariant
            done <= copies,
            buffer@ == repeated(run@, done as nat),
        decreases copies - done,
    {
        let mut i: usize = 0;
        while i < run.len()
            invariant
                i <= run.len(),
                buffer@ == repeated(run@, done as nat) + run@.take(i as int),
            decreases run.len() - i,
        {
            buffer.push(run[i]);
            i += 1;
            assert(buffer@ =~= repeated(run@, done as nat) + run@.take(i as int));
        }
        assert(run@.take(i as int) =~= run@);
        done += 1;
    }
    buffer
}

impl CompressedData {
    /// Compresses `bytes` by grouping: every maximal stretch of one byte
    /// becomes one run of that byte, with the length of the stretch as its
    /// number of copies.
    ///
    /// The container format does not say which encoder wrote its data; this
    /// one is the plain greedy grouping, and `decompress` undoes it.
    pub fn compress(bytes: &[u8]) -> (r: CompressedData)
        ensures
            r@ == grouped(bytes@),
    {
        let mut runs: Vec<CompressedRun> = Vec::new();
        let mut i: usize = 0;
        while i < bytes.len()
            invariant
                i <= bytes.len(),
                runs@.map_values(|r: CompressedRun| r@) == grouped(bytes@.take(i as int)),
                0 < i < bytes.len() ==> bytes@[i - 1] != bytes@[i as int],
            decreases bytes.len() - i,
        {
            let byte = bytes[i];
            let mut j: usize = i + 1;
            while j < bytes.len() && bytes[j] == byte
                invariant
                    i < j <= bytes.len(),
                    forall|k: int| i <= k < j ==> bytes@[k] == byte,
                decreases bytes.len() - j,
            {
                j += 1;
            }
            let ghost before = runs@.map_values(|r: CompressedRun| r@);
            let run = CompressedRun { copies: j - i, run: vec![byte] };
            proof {
                assert(run@.1 =~= seq![byte]);
            }
            runs.push(run);
            proof {
                let after = runs@.map_values(|r: CompressedRun| r@);
                assert(after =~= before.push(((j - i) as nat, seq![byte])));
                lemma_grouped_stretch(bytes@, i as int, j as int);
            }
            i = j;
        }
        assert(bytes@.take(i as int) =~= bytes@);
        CompressedData(runs)
    }

    /// Expands the runs back to raw bytes.
    ///
    /// The runs are taken in order, and each contributes its bytes repeated
    /// `copies` times; a run with `copies == 0` and a run without bytes
    /// contribute nothing.
    pub fn decompress(&self) -> (r: Vec<u8>)
        ensures
            r@ == expanded(self@),
    {
        let mut decompressed: Vec<u8> = Vec::new();
        let mut i: usize = 0;
        while i < self.0.len()
            invariant
                i <= self.0.len(),
                decompressed@ == expanded(self@.take(i as int)),
            decreases self.0.len() - i,
        {
            let segment = &self.0[i];
            let mut buffer = repeat(&segment.run, segment.copies);
            decompressed.append(&mut buffer);
            i += 1;
            proof {
                let upto = self@.take(i as int);
                assert(upto.drop_last() =~= self@.take(i - 1));
                assert(upto.last() == segment@);
            }
        }
        assert(self@.take(i as int) =~= self@);
        decompressed
    }
}

} // verus!
