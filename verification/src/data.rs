//! Datasets and the batches cut from them.

use vstd::prelude::*;
use rand::rngs::StdRng;
use rand::seq::SliceRandom;
use crate::error::Error;
use crate::matrix::{Grid, Matrix};
use crate::scalar::{deterministic, of_usize, one, quotient, zero, Scalar};
use crate::scalar::{count_value, one_value, over, zero_value};

verus! {

/// One sample: the input features and the target that goes with them.
pub struct Sample<T> {
    pub input: Seq<T>,
    pub target: Seq<T>,
}

/// A collection of samples that can be read by position.
pub trait Dataset {
    type Item: Scalar;

    /// The samples, in their order.
    open spec fn samples(&self) -> Seq<Sample<Self::Item>> {
        arbitrary()
    }

    fn len(&self) -> (n: usize)
        ensures
            n == self.samples().len(),
    ;

    fn get_sample(&self, index: usize) -> (r: (&Vec<Self::Item>, &Vec<Self::Item>))
        requires
            index < self.samples().len(),
        ensures
            r.0@ == self.samples()[index as int].input,
            r.1@ == self.samples()[index as int].target,
    ;
}

/// The length of a record: one label byte and the pixel bytes of one image.
pub const RECORD_BYTES: usize = 3073;

/// The number of classes that a label byte tells apart.
pub const CLASSES: usize = 10;

/// The number of records in a file of `len` bytes; a shorter last record
/// counts.
pub open spec fn record_count(len: nat) -> nat {
    (len + RECORD_BYTES - 1) as nat / (RECORD_BYTES as nat)
}

/// Record `k` of a file.
pub open spec fn record(bytes: Seq<u8>, k: int) -> Seq<u8> {
    bytes.subrange(
        RECORD_BYTES * k,
        if RECORD_BYTES * (k + 1) <= bytes.len() {
            RECORD_BYTES * (k + 1)
        } else {
            bytes.len() as int
        },
    )
}

/// Every record's label byte names one of the classes.
pub open spec fn labels_known(bytes: Seq<u8>) -> bool {
    forall|k: int| 0 <= k < record_count(bytes.len()) ==> #[trigger] bytes[RECORD_BYTES * k] < CLASSES
}

/// The one-hot row for class `label`.
pub open spec fn one_hot<T: Scalar>(label: u8) -> Seq<T> {
    Seq::new(
        CLASSES as nat,
        |c: int|
            if c == label {
                one::<T>()
            } else {
                zero::<T>()
            },
    )
}

/// The pixels of a record, each as a number between zero and one.
pub open spec fn pixels<T: Scalar>(record: Seq<u8>) -> Seq<T> {
    Seq::new((record.len() - 1) as nat, |p: int| quotient(of_usize::<T>(record[p + 1] as usize), of_usize::<T>(255)))
}

/// The sample that a record holds.
pub open spec fn sample_of<T: Scalar>(record: Seq<u8>) -> Sample<T> {
    Sample { input: pixels(record), target: one_hot(record[0]) }
}

/// The samples that the records of a file hold, in their order.
pub open spec fn samples_of<T: Scalar>(bytes: Seq<u8>) -> Seq<Sample<T>> {
    Seq::new(record_count(bytes.len()), |k: int| sample_of(record(bytes, k)))
}

/// The samples of several files, file after file.
pub open spec fn samples_of_all<T: Scalar>(files: Seq<Seq<u8>>) -> Seq<Sample<T>>
    decreases files.len(),
{
    if files.len() == 0 {
        Seq::empty()
    } else {
        samples_of_all(files.drop_last()) + samples_of(files.last())
    }
}

/// Images with one of ten labels each, read from fixed-size binary records:
/// a label byte, then the pixel bytes.
pub struct CIFAR10<T> {
    images: Vec<Vec<T>>,
    labels: Vec<Vec<T>>,
}

impl<T> CIFAR10<T> {
    /// There is one label row for each image.
    #[verifier::type_invariant]
    spec fn paired(&self) -> bool {
        self.images@.len() == self.labels@.len()
    }
}

impl<T: Scalar> CIFAR10<T> {
    /// The one-hot row for class `label`.
    fn one_hot_row(label: u8) -> (row: Vec<T>)
        requires
            label < CLASSES,
        ensures
            deterministic::<T>() ==> row@ == one_hot::<T>(label),
            row@.len() == CLASSES,
    {
        let mut row: Vec<T> = Vec::new();
        let mut c: usize = 0;
        while c < CLASSES
            invariant
                c <= CLASSES,
                row@.len() == c,
                deterministic::<T>() ==> row@ == one_hot::<T>(label).take(c as int),
            decreases CLASSES - c,
        {
            let cell: T = if c == label as usize {
                one_value()
            } else {
                zero_value()
            };
            row.push(cell);
            assert(deterministic::<T>() ==> row@ =~= one_hot::<T>(label).take(c + 1));
            c += 1;
        }
        assert(one_hot::<T>(label).take(CLASSES as int) =~= one_hot::<T>(label));
        row
    }

    /// The samples in the records of one file: for each record its image, each
    /// pixel scaled to between zero and one, and its label as a one-hot row.
    pub fn parse_file(bytes: &Vec<u8>) -> (r: (Vec<Vec<T>>, Vec<Vec<T>>))
        requires
            labels_known(bytes@),
        ensures
            r.0@.len() == record_count(bytes@.len()),
            r.1@.len() == record_count(bytes@.len()),
            deterministic::<T>() ==> forall|k: int|
                0 <= k < record_count(bytes@.len()) ==> {
                    &&& (#[trigger] r.0@[k])@ == samples_of::<T>(bytes@)[k].input
                    &&& r.1@[k]@ == samples_of::<T>(bytes@)[k].target
                },
    {
        let mut images: Vec<Vec<T>> = Vec::new();
        let mut labels: Vec<Vec<T>> = Vec::new();
        let len = bytes.len();
        let mut start: usize = 0;
        let ghost mut k: int = 0;
        while start < len
            invariant
                len == bytes@.len(),
                labels_known(bytes@),
                0 <= k <= record_count(bytes@.len()),
                start <= len,
                start == (if RECORD_BYTES * k <= len {
                    RECORD_BYTES * k
                } else {
                    len as int
                }),
                images@.len() == k,
                labels@.len() == k,
                deterministic::<T>() ==> forall|i: int|
                    0 <= i < k ==> {
                        &&& (#[trigger] images@[i])@ == samples_of::<T>(bytes@)[i].input
                        &&& labels@[i]@ == samples_of::<T>(bytes@)[i].target
                    },
            decreases len - start,
        {
            let end: usize = if len - start > RECORD_BYTES {
                start + RECORD_BYTES
            } else {
                len
            };
            let ghost chunk = record(bytes@, k);
            proof {
                assert(k < record_count(bytes@.len()));
                assert(bytes@[RECORD_BYTES * k] < CLASSES);
                assert(chunk.len() == end - start);
            }
            let label_row = Self::one_hot_row(bytes[start]);
            let mut image: Vec<T> = Vec::new();
            let mut p: usize = start + 1;
            while p < end
                invariant
                    len == bytes@.len(),
                    start < end <= len,
                    start + 1 <= p <= end,
                    chunk == bytes@.subrange(start as int, end as int),
                    image@.len() == p - start - 1,
                    deterministic::<T>() ==> image@ == pixels::<T>(chunk).take(p - start - 1),
                decreases end - p,
            {
                let byte: u8 = bytes[p];
                image.push(over(count_value(byte as usize), count_value(255)));
                assert(deterministic::<T>() ==> image@ =~= pixels::<T>(chunk).take(p - start));
                p += 1;
            }
            proof {
                assert(pixels::<T>(chunk).take(end - start - 1) =~= pixels::<T>(chunk));
            }
            images.push(image);
            labels.push(label_row);
            proof {
                k = k + 1;
            }
            start = end;
        }
        (images, labels)
    }

    /// The dataset of the samples in the given files' contents, file after
    /// file.
    pub fn new(files: &Vec<Vec<u8>>) -> (r: Self)
        requires
            forall|f: int| 0 <= f < files@.len() ==> labels_known(#[trigger] files@[f]@),
        ensures
            r.samples().len() == samples_of_all::<T>(Seq::new(files@.len(), |f: int| files@[f]@)).len(),
            deterministic::<T>() ==> r.samples() == samples_of_all::<T>(
                Seq::new(files@.len(), |f: int| files@[f]@),
            ),
    {
        let ghost contents = Seq::new(files@.len(), |f: int| files@[f]@);
        let mut images: Vec<Vec<T>> = Vec::new();
        let mut labels: Vec<Vec<T>> = Vec::new();
        let mut f: usize = 0;
        proof {
            assert(contents.take(0) =~= Seq::<Seq<u8>>::empty());
        }
        while f < files.len()
            invariant
                contents == Seq::new(files@.len(), |f: int| files@[f]@),
                forall|f: int| 0 <= f < files@.len() ==> labels_known(#[trigger] files@[f]@),
                f <= files@.len(),
                images@.len() == labels@.len(),
                images@.len() == samples_of_all::<T>(contents.take(f as int)).len(),
                deterministic::<T>() ==> forall|i: int|
                    0 <= i < images@.len() ==> {
                        &&& (#[trigger] images@[i])@ == samples_of_all::<T>(contents.take(f as int))[i].input
                        &&& labels@[i]@ == samples_of_all::<T>(contents.take(f as int))[i].target
                    },
            decreases files@.len() - f,
        {
            let (mut x, mut y) = Self::parse_file(&files[f]);
            proof {
                assert(contents.take(f + 1).drop_last() =~= contents.take(f as int));
                assert(contents.take(f + 1).last() == files@[f as int]@);
            }
            images.append(&mut x);
            labels.append(&mut y);
            f += 1;
        }
        proof {
            assert(contents.take(files@.len() as int) =~= contents);
        }
        let r = CIFAR10 { images, labels };
        proof {
            if deterministic::<T>() {
                assert(r.samples() =~= samples_of_all::<T>(contents));
            }
        }
        r
    }
}

impl<T: Scalar> Dataset for CIFAR10<T> {
    type Item = T;

    closed spec fn samples(&self) -> Seq<Sample<T>> {
        Seq::new(self.images@.len(), |i: int| Sample { input: self.images@[i]@, target: self.labels@[i]@ })
    }

    fn len(&self) -> (n: usize) {
        self.images.len()
    }

    fn get_sample(&self, index: usize) -> (r: (&Vec<T>, &Vec<T>)) {
        proof {
            use_type_invariant(self);
        }
        (&self.images[index], &self.labels[index])
    }
}

/// The inputs of `n` samples, taken in the given order from position `from`
/// on and laid end to end.
pub open spec fn inputs_of<T>(samples: Seq<Sample<T>>, order: Seq<usize>, from: int, n: nat) -> Seq<T>
    decreases n,
{
    if n == 0 {
        Seq::empty()
    } else {
        inputs_of(samples, order, from, (n - 1) as nat) + samples[order[from + n - 1] as int].input
    }
}

/// The targets of `n` samples, taken in the given order from position `from`
/// on and laid end to end.
pub open spec fn targets_of<T>(samples: Seq<Sample<T>>, order: Seq<usize>, from: int, n: nat) -> Seq<T>
    decreases n,
{
    if n == 0 {
        Seq::empty()
    } else {
        targets_of(samples, order, from, (n - 1) as nat) + samples[order[from + n - 1] as int].target
    }
}

/// The matrix of `rows` rows that a buffer is cut into, if it can be cut into
/// rows of one length.
pub open spec fn cut<T>(flat: Seq<T>, rows: nat) -> Option<Grid<T>> {
    if rows > 0 && flat.len() % rows == 0 {
        Some(Grid::from_flat(rows, flat.len() / rows, flat))
    } else {
        None
    }
}

/// What a [`DataLoader`] holds besides its dataset.
pub struct DataLoaderView {
    pub batch_size: usize,
    /// The order in which the samples are handed out.
    pub order: Seq<usize>,
    /// The number of samples handed out.
    pub current: nat,
}

/// Hands out the samples of a dataset in batches of a fixed size, in an order
/// that can be shuffled.
pub struct DataLoader<D> {
    pub batch_size: usize,
    dataset: D,
    indexes: Vec<usize>,
    current: usize,
}

impl<D: Dataset> View for DataLoader<D> {
    type V = DataLoaderView;

    closed spec fn view(&self) -> DataLoaderView {
        DataLoaderView { batch_size: self.batch_size, order: self.indexes@, current: self.current as nat }
    }
}

/// `rand::seq::SliceRandom::shuffle` on a vector of positions. It swaps
/// entries among themselves, so the entries afterwards are the entries before,
/// each as often as before, in an order that `rng` decides.
#[verifier::external_body]
fn shuffle_positions(positions: &mut Vec<usize>, rng: &mut StdRng)
    ensures
        final(positions)@.to_multiset() == old(positions)@.to_multiset(),
{
    positions.shuffle(rng);
}

/// Appends the cells of `src` to `dst`.
fn append_cells<T: Copy>(dst: &mut Vec<T>, src: &Vec<T>)
    ensures
        final(dst)@ == old(dst)@ + src@,
{
    let mut k: usize = 0;
    while k < src.len()
        invariant
            k <= src@.len(),
            dst@ == old(dst)@ + src@.take(k as int),
        decreases src@.len() - k,
    {
        dst.push(src[k]);
        assert(dst@ =~= old(dst)@ + src@.take(k + 1));
        k += 1;
    }
    assert(src@.take(src@.len() as int) =~= src@);
}

impl<D: Dataset> DataLoader<D> {
    /// The dataset that the batches are cut from.
    pub closed spec fn dataset(&self) -> D {
        self.dataset
    }

    /// The order names every sample by its position in the dataset.
    pub open spec fn wf(&self) -> bool {
        &&& self@.order.len() == self.dataset().samples().len()
        &&& forall|i: int|
            0 <= i < self@.order.len() ==> (#[trigger] self@.order[i]) < self.dataset().samples().len()
    }

    /// A loader that hands out the samples in the dataset's own order, from
    /// the first on.
    pub fn new(batch_size: usize, dataset: D) -> (r: Self)
        ensures
            r.wf(),
            r.dataset() == dataset,
            r@ == (DataLoaderView {
                batch_size,
                order: Seq::new(dataset.samples().len(), |i: int| i as usize),
                current: 0,
            }),
    {
        let n = dataset.len();
        let mut indexes: Vec<usize> = Vec::new();
        let mut i: usize = 0;
        while i < n
            invariant
                i <= n,
                indexes@.len() == i,
                forall|k: int| 0 <= k < i ==> indexes@[k] == k,
            decreases n - i,
        {
            indexes.push(i);
            i += 1;
        }
        let r = DataLoader { batch_size, dataset, indexes, current: 0 };
        assert(r@.order =~= Seq::new(dataset.samples().len(), |i: int| i as usize));
        r
    }

    /// Puts the order in which samples are handed out into a random order.
    /// The same positions are handed out, each as often as before.
    pub fn shuffle(&mut self, rng: &mut StdRng)
        requires
            old(self).wf(),
        ensures
            final(self).wf(),
            final(self).dataset() == old(self).dataset(),
            final(self)@.batch_size == old(self)@.batch_size,
            final(self)@.current == old(self)@.current,
            final(self)@.order.to_multiset() == old(self)@.order.to_multiset(),
    {
        let ghost before = self.indexes@;
        shuffle_positions(&mut self.indexes, rng);
        proof {
            let after = self.indexes@;
            before.to_multiset_ensures();
            after.to_multiset_ensures();
            assert forall|i: int| 0 <= i < after.len() implies (#[trigger] after[i])
                < self.dataset.samples().len() by {
                assert(after.contains(after[i]));
                assert(before.to_multiset().count(after[i]) > 0);
                assert(before.contains(after[i]));
                let j = choose|j: int| 0 <= j < before.len() && before[j] == after[i];
                assert(old(self)@.order[j] < self.dataset.samples().len());
            }
        }
    }

    /// The next batch: the inputs of the next `batch_size` samples as the rows
    /// of one matrix and their targets as the rows of another. There is no
    /// next batch unless more than `batch_size` samples are left. Samples that
    /// cannot be laid out as rows of one length are refused, and the loader
    /// stays where it was.
    pub fn next(&mut self) -> (r: Result<Option<(Matrix<D::Item>, Matrix<D::Item>)>, Error>)
        requires
            old(self).wf(),
            old(self)@.batch_size > 0,
        ensures
            final(self).wf(),
            final(self).dataset() == old(self).dataset(),
            final(self)@.batch_size == old(self)@.batch_size,
            final(self)@.order == old(self)@.order,
            ({
                let v = old(self)@;
                let samples = old(self).dataset().samples();
                let xs = inputs_of(samples, v.order, v.current as int, v.batch_size as nat);
                let ys = targets_of(samples, v.order, v.current as int, v.batch_size as nat);
                match r {
                    Ok(None) => v.current + v.batch_size >= samples.len() && final(self)@.current == v.current,
                    Ok(Some(batch)) => {
                        &&& v.current + v.batch_size < samples.len()
                        &&& final(self)@.current == v.current + v.batch_size
                        &&& cut(xs, v.batch_size as nat) == Some(batch.0@)
                        &&& cut(ys, v.batch_size as nat) == Some(batch.1@)
                    },
                    Err(e) => {
                        &&& e == Error::ShapeMismatch
                        &&& v.current + v.batch_size < samples.len()
                        &&& final(self)@.current == v.current
                        &&& cut(xs, v.batch_size as nat) is None || cut(ys, v.batch_size as nat) is None
                    },
                }
            }),
    {
        let n = self.dataset.len();
        let batch = self.batch_size;
        if batch >= n || self.current >= n - batch {
            return Ok(None);
        }
        let ghost samples = self.dataset.samples();
        let ghost order = self.indexes@;
        let ghost from = self.current as int;
        let mut x_batch: Vec<D::Item> = Vec::new();
        let mut y_batch: Vec<D::Item> = Vec::new();
        let mut i: usize = 0;
        while i < batch
            invariant
                self.wf(),
                samples == self.dataset.samples(),
                order == self.indexes@,
                from == self.current,
                n == samples.len(),
                from + batch < n,
                i <= batch,
                x_batch@ == inputs_of(samples, order, from, i as nat),
                y_batch@ == targets_of(samples, order, from, i as nat),
            decreases batch - i,
        {
            let (x, y) = self.dataset.get_sample(self.indexes[self.current + i]);
            append_cells(&mut x_batch, x);
            append_cells(&mut y_batch, y);
            i += 1;
        }
        let x_cols = x_batch.len() / batch;
        let y_cols = y_batch.len() / batch;
        proof {
            lemma_cut_length(x_batch@.len(), batch as nat);
            lemma_cut_length(y_batch@.len(), batch as nat);
        }
        let x = Matrix::from_vec(batch, x_cols, x_batch)?;
        let y = Matrix::from_vec(batch, y_cols, y_batch)?;
        self.current += batch;
        Ok(Some((x, y)))
    }
}

/// A buffer can be cut into `rows` rows of one length exactly when its length
/// is `rows` times the length divided by `rows`.
proof fn lemma_cut_length(len: nat, rows: nat)
    requires
        rows > 0,
    ensures
        len % rows == 0 <==> len == rows * (len / rows),
{
    assert(len == rows * (len / rows) + len % rows) by (nonlinear_arith)
        requires
            rows > 0,
    ;
}

} // verus!
