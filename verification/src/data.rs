//! Dataset iterators over pairs of buffers, and a text-relabeling holder.

use crate::buffer::Buffer;
use crate::device::Device;
use vstd::prelude::*;

verus! {

/// An iterator over a pair of buffers with the same leading-dimension size.
/// Each batch is a pair containing a slice of each of the two inputs.
pub struct Iter2 {
    pub xs: Buffer,
    pub ys: Buffer,
    pub batch_index: i64,
    pub batch_size: i64,
    pub total_size: i64,
    pub device: Device,
    pub return_smaller_last_batch: bool,
}

impl Iter2 {
    /// Returns a new iterator over mini-batches of the given size, drawn
    /// from two buffers whose leading dimensions match.
    pub fn new(xs: &Buffer, ys: &Buffer, batch_size: i64) -> (r: Iter2)
        requires
            xs@.len() == ys@.len(),
            xs@.len() <= i64::MAX,
        ensures
            r.xs@ == xs@,
            r.ys@ == ys@,
            r.xs.kind == xs.kind,
            r.ys.kind == ys.kind,
            r.batch_index == 0,
            r.batch_size == batch_size,
            r.total_size == xs@.len(),
            r.device == Device::Cpu,
            !r.return_smaller_last_batch,
    {
        let total_size = xs.numel() as i64;
        Iter2 {
            xs: xs.shallow_clone(),
            ys: ys.shallow_clone(),
            batch_index: 0,
            batch_size,
            total_size,
            device: Device::Cpu,
            return_smaller_last_batch: false,
        }
    }

    /// Reorders the dataset: element `i` of each buffer becomes the element
    /// the given index sequence names. A caller drawing the indices as a
    /// random permutation obtains a shuffled dataset whose batches still
    /// cover the whole data.
    pub fn shuffle(&mut self, index: &Vec<i64>)
        requires
            index@.len() == old(self).total_size,
            old(self).xs@.len() == old(self).total_size,
            old(self).ys@.len() == old(self).total_size,
            forall|i: int|
                0 <= i < index@.len() ==> 0 <= #[trigger] index@[i] < old(self).total_size,
        ensures
            final(self).xs@.len() == old(self).xs@.len(),
            final(self).ys@.len() == old(self).ys@.len(),
            forall|i: int|
                0 <= i < index@.len() ==> #[trigger] final(self).xs@[i] == old(self).xs@[index@[i] as int],
            forall|i: int|
                0 <= i < index@.len() ==> #[trigger] final(self).ys@[i] == old(self).ys@[index@[i] as int],
            final(self).xs.kind == old(self).xs.kind,
            final(self).ys.kind == old(self).ys.kind,
            final(self).xs.device == old(self).xs.device,
            final(self).ys.device == old(self).ys.device,
            final(self).batch_index == old(self).batch_index,
            final(self).batch_size == old(self).batch_size,
            final(self).total_size == old(self).total_size,
            final(self).device == old(self).device,
            final(self).return_smaller_last_batch == old(self).return_smaller_last_batch,
    {
        let new_xs = index_select(&self.xs, index);
        let new_ys = index_select(&self.ys, index);
        self.xs = new_xs;
        self.ys = new_ys;
    }

    /// Transfers the mini-batches to a specified device.
    pub fn to_device(&mut self, device: Device)
        ensures
            final(self).device == device,
            final(self).xs == old(self).xs,
            final(self).ys == old(self).ys,
            final(self).batch_index == old(self).batch_index,
            final(self).batch_size == old(self).batch_size,
            final(self).total_size == old(self).total_size,
            final(self).return_smaller_last_batch == old(self).return_smaller_last_batch,
    {
        self.device = device;
    }

    /// When set, the iterator returns the last batch even if it is smaller
    /// than the batch size.
    pub fn return_smaller_last_batch(&mut self)
        ensures
            final(self).return_smaller_last_batch,
            final(self).xs == old(self).xs,
            final(self).ys == old(self).ys,
            final(self).batch_index == old(self).batch_index,
            final(self).batch_size == old(self).batch_size,
            final(self).total_size == old(self).total_size,
            final(self).device == old(self).device,
    {
        self.return_smaller_last_batch = true;
    }

    /// The next mini-batch: a pair of slices of length `batch_size` starting
    /// at `batch_index * batch_size`, placed on the iterator's device; `None`
    /// once the data is exhausted, or once only a short batch remains and
    /// short batches were not requested.
    pub fn next(&mut self) -> (r: Option<(Buffer, Buffer)>)
        requires
            old(self).batch_size >= 0,
            old(self).batch_index >= 0,
            old(self).total_size == old(self).xs@.len(),
            old(self).total_size == old(self).ys@.len(),
            old(self).batch_index * old(self).batch_size <= i64::MAX,
        ensures
            final(self).xs == old(self).xs,
            final(self).ys == old(self).ys,
            final(self).batch_size == old(self).batch_size,
            final(self).total_size == old(self).total_size,
            final(self).device == old(self).device,
            final(self).return_smaller_last_batch == old(self).return_smaller_last_batch,
            ({
                let start = old(self).batch_index * old(self).batch_size;
                let size = if old(self).batch_size <= old(self).total_size - start {
                    old(self).batch_size as int
                } else {
                    old(self).total_size - start
                };
                if size <= 0 || (!old(self).return_smaller_last_batch && size < old(
                    self,
                ).batch_size) {
                    r is None && final(self).batch_index == old(self).batch_index
                } else {
                    &&& r matches Some((bx, by))
                    &&& bx@ == old(self).xs@.subrange(start, start + size)
                    &&& by@ == old(self).ys@.subrange(start, start + size)
                    &&& bx.kind == old(self).xs.kind
                    &&& by.kind == old(self).ys.kind
                    &&& bx.device == old(self).device
                    &&& by.device == old(self).device
                    &&& final(self).batch_index == old(self).batch_index + 1
                }
            }),
    {
        let start = self.batch_index * self.batch_size;
        let size = if self.batch_size <= self.total_size - start {
            self.batch_size
        } else {
            self.total_size - start
        };
        if size <= 0 || (!self.return_smaller_last_batch && size < self.batch_size) {
            None
        } else {
            proof {
                assert(self.batch_index <= self.batch_index * self.batch_size)
                    by (nonlinear_arith)
                    requires
                        self.batch_index >= 0,
                        self.batch_size >= 1,
                ;
            }
            self.batch_index = self.batch_index + 1;
            let bx = narrow(&self.xs, start, size, self.device);
            let by = narrow(&self.ys, start, size, self.device);
            Some((bx, by))
        }
    }
}

/// The slice of a buffer from `start` of length `size`, moved to `device`.
fn narrow(b: &Buffer, start: i64, size: i64, device: Device) -> (r: Buffer)
    requires
        0 <= start,
        0 <= size,
        start + size <= b@.len(),
    ensures
        r@ == b@.subrange(start as int, start + size),
        r.kind == b.kind,
        r.device == device,
{
    let len: usize = b.data.len();
    let base: usize = start as usize;
    let mut data: Vec<i64> = Vec::new();
    let mut i: usize = 0;
    while i < size as usize
        invariant
            0 <= start,
            0 <= size,
            start + size <= b@.len(),
            b@.len() == len,
            base == start,
            i <= size,
            data@ == b@.subrange(start as int, start + i),
        decreases size - i,
    {
        data.push(b.data[base + i]);
        proof {
            assert(data@ =~= b@.subrange(start as int, start + i + 1));
        }
        i = i + 1;
    }
    proof {
        assert(data@ =~= b@.subrange(start as int, start + size));
    }
    Buffer { kind: b.kind, device, data }
}

/// The buffer whose element `i` is `b`'s element `index[i]`.
fn index_select(b: &Buffer, index: &Vec<i64>) -> (r: Buffer)
    requires
        forall|i: int| 0 <= i < index@.len() ==> 0 <= #[trigger] index@[i] < b@.len(),
    ensures
        r@.len() == index@.len(),
        forall|i: int| 0 <= i < index@.len() ==> #[trigger] r@[i] == b@[index@[i] as int],
        r.kind == b.kind,
        r.device == b.device,
{
    let blen: usize = b.data.len();
    let mut data: Vec<i64> = Vec::new();
    let mut i: usize = 0;
    while i < index.len()
        invariant
            i <= index@.len(),
            data@.len() == i,
            b@.len() == blen,
            forall|j: int| 0 <= j < index@.len() ==> 0 <= #[trigger] index@[j] < b@.len(),
            forall|j: int| 0 <= j < i ==> #[trigger] data@[j] == b@[index@[j] as int],
        decreases index@.len() - i,
    {
        data.push(b.data[index[i] as usize]);
        i = i + 1;
    }
    Buffer { kind: b.kind, device: b.device, data }
}

/// The distinct bytes of a sequence, in order of first occurrence.
pub open spec fn alphabet(s: Seq<u8>) -> Seq<u8>
    decreases s.len(),
{
    if s.len() == 0 {
        Seq::empty()
    } else {
        let prefix = alphabet(s.drop_last());
        if prefix.contains(s.last()) {
            prefix
        } else {
            prefix.push(s.last())
        }
    }
}

/// No byte occurs twice in `a`.
pub open spec fn no_repeats(a: Seq<u8>) -> bool {
    forall|i: int, j: int| 0 <= i < j < a.len() ==> a[i] != a[j]
}

/// The position of `c` in `a`; meaningful when `a` holds `c` exactly once.
pub open spec fn position_of(a: Seq<u8>, c: u8) -> int
    decreases a.len(),
{
    if a.len() == 0 {
        0
    } else if a.last() == c {
        a.len() - 1
    } else {
        position_of(a.drop_last(), c)
    }
}

/// The label the text holder assigns to byte `c` of text `s`: its position
/// in the alphabet of `s`.
pub open spec fn label_of(s: Seq<u8>, c: u8) -> int {
    position_of(alphabet(s), c)
}

/// Text data holder: the text as a buffer of labels, one label for each
/// distinct byte, labels assigned in order of first occurrence.
pub struct TextData {
    pub data: Buffer,
    pub char_for_label: Vec<u8>,
}

impl TextData {
    /// Relabels a text: byte `i` of the input becomes its label, and
    /// `char_for_label` records which byte each label stands for, in order
    /// of first occurrence.
    pub fn from_bytes(buffer: &Vec<u8>) -> (r: TextData)
        requires
            buffer@.len() <= i64::MAX,
        ensures
            r.char_for_label@ == alphabet(buffer@),
            r.data@.len() == buffer@.len(),
            forall|i: int|
                0 <= i < buffer@.len() ==> #[trigger] r.data@[i] == label_of(buffer@, buffer@[i]),
            r.data.kind == crate::wrappers::kind::Kind::Uint8,
            r.data.device == Device::Cpu,
    {
        let mut chars: Vec<u8> = Vec::new();
        let mut labels: Vec<i64> = Vec::new();
        let mut i: usize = 0;
        while i < buffer.len()
            invariant
                i <= buffer@.len() <= i64::MAX,
                chars@ == alphabet(buffer@.take(i as int)),
                chars@.len() <= i,
                labels@.len() == i,
                forall|j: int|
                    0 <= j < i ==> #[trigger] labels@[j] == label_of(
                        buffer@.take(i as int),
                        buffer@[j],
                    ),
            decreases buffer@.len() - i,
        {
            let ghost pre = buffer@.take(i as int);
            proof {
                lemma_alphabet_no_repeats(pre);
            }
            let c = buffer[i];
            let mut label: usize = 0;
            let mut found = false;
            let mut k: usize = 0;
            while k < chars.len()
                invariant
                    k <= chars@.len(),
                    !found ==> forall|j: int| 0 <= j < k ==> chars@[j] != c,
                    found ==> label < chars@.len() && chars@[label as int] == c,
                decreases chars@.len() - k,
        {
                if chars[k] == c {
                    found = true;
                    label = k;
                    k = chars.len();
                } else {
                    k = k + 1;
                }
            }
            let ghost post = buffer@.take(i + 1 as int);
            proof {
                assert(post.drop_last() =~= pre);
                assert(post.last() == buffer@[i as int]);
                if found {
                    assert(alphabet(pre).contains(c)) by {
                        assert(alphabet(pre)[label as int] == c);
                    }
                } else {
                    assert(!alphabet(pre).contains(c));
                }
            }
            if !found {
                label = chars.len();
                chars.push(c);
            }
            proof {
                assert(chars@ == alphabet(post));
                lemma_alphabet_no_repeats(post);
                lemma_position_at(chars@, label as int, c);
                assert(label_of(post, c) == label);
                assert forall|j: int| 0 <= j < i implies label_of(post, buffer@[j]) == label_of(
                    pre,
                    buffer@[j],
                ) by {
                    assert(pre[j] == buffer@[j]);
                    lemma_alphabet_covers(pre, j);
                    lemma_label_stable(pre, post, buffer@[j]);
                }
            }
            labels.push(label as i64);
            proof {
                assert(forall|j: int|
                    0 <= j < i + 1 ==> #[trigger] labels@[j] == label_of(post, buffer@[j]));
            }
            i = i + 1;
        }
        proof {
            assert(buffer@.take(buffer@.len() as int) =~= buffer@);
        }
        TextData {
            data: Buffer {
                kind: crate::wrappers::kind::Kind::Uint8,
                device: Device::Cpu,
                data: labels,
            },
            char_for_label: chars,
        }
    }

    /// How many distinct labels the text uses.
    pub fn labels(&self) -> (r: i64)
        requires
            self.char_for_label@.len() <= i64::MAX,
        ensures
            r == self.char_for_label@.len(),
    {
        self.char_for_label.len() as i64
    }

    /// The relabeled text as a buffer.
    pub fn data(&self) -> (r: Buffer)
        ensures
            r@ == self.data@,
            r.kind == self.data.kind,
            r.device == self.data.device,
    {
        self.data.shallow_clone()
    }
}

/// The alphabet of a text never holds a byte twice.
proof fn lemma_alphabet_no_repeats(s: Seq<u8>)
    ensures
        no_repeats(alphabet(s)),
    decreases s.len(),
{
    if s.len() > 0 {
        lemma_alphabet_no_repeats(s.drop_last());
        let prefix = alphabet(s.drop_last());
        if !prefix.contains(s.last()) {
            assert forall|i: int, j: int|
                0 <= i < j < prefix.push(s.last()).len() implies prefix.push(s.last())[i]
                != prefix.push(s.last())[j] by {
                if j == prefix.len() {
                    assert(!prefix.contains(s.last()));
                    assert(prefix[i] != s.last());
                }
            }
        }
    }
}

/// In a repeat-free sequence, `position_of` finds the one position holding
/// `c`.
proof fn lemma_position_at(a: Seq<u8>, k: int, c: u8)
    requires
        no_repeats(a),
        0 <= k < a.len(),
        a[k] == c,
    ensures
        position_of(a, c) == k,
    decreases a.len(),
{
    if k == a.len() - 1 {
    } else {
        assert(a.last() != c);
        assert(a.drop_last()[k] == c);
        assert(no_repeats(a.drop_last())) by {
            assert(forall|i: int, j: int|
                0 <= i < j < a.drop_last().len() ==> a.drop_last()[i] == a[i] && a.drop_last()[j]
                    == a[j]);
        }
        lemma_position_at(a.drop_last(), k, c);
    }
}

/// Every byte of the text appears in its alphabet.
proof fn lemma_alphabet_covers(s: Seq<u8>, j: int)
    requires
        0 <= j < s.len(),
    ensures
        alphabet(s).contains(s[j]),
    decreases s.len(),
{
    if j == s.len() - 1 {
        let prefix = alphabet(s.drop_last());
        if prefix.contains(s.last()) {
        } else {
            assert(alphabet(s)[alphabet(s).len() - 1] == s.last());
        }
    } else {
        lemma_alphabet_covers(s.drop_last(), j);
        let prefix = alphabet(s.drop_last());
        assert(prefix.contains(s.drop_last()[j]));
        let w = choose|w: int| 0 <= w < prefix.len() && prefix[w] == s[j];
        if prefix.contains(s.last()) {
            assert(alphabet(s) == prefix);
        } else {
            assert(alphabet(s)[w] == s[j]);
        }
    }
}

/// Growing the alphabet by a fresh byte keeps every earlier byte's position.
proof fn lemma_label_stable(pre: Seq<u8>, post: Seq<u8>, c: u8)
    requires
        post.len() == pre.len() + 1,
        post.drop_last() == pre,
        alphabet(pre).contains(c),
    ensures
        position_of(alphabet(post), c) == position_of(alphabet(pre), c),
{
    let a = alphabet(pre);
    let b = alphabet(post);
    assert(b == if a.contains(post.last()) {
        a
    } else {
        a.push(post.last())
    });
    if a.contains(post.last()) {
    } else {
        assert(post.last() != c);
        assert(b.last() != c);
        assert(b.drop_last() =~= a);
    }
}

} // verus!
