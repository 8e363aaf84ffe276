//! Decoders for IDX label and image files, with indexed and batched reads
//! over the decoded buffer.

use crate::idx::{be_bytes, be_u32, lemma_be_u32_of_be_bytes, read_be_u32};
use vstd::prelude::*;
use vstd::slice::slice_subrange;

verus! {

/// Length of a label file's header: magic and count.
pub const LABEL_HEADER_LEN: usize = 8;

/// Length of an image file's header: magic, count, height and width.
pub const IMAGE_HEADER_LEN: usize = 16;

/// What a read handed out, as a value.
pub open spec fn contents(slice: Option<&[u8]>) -> Option<Seq<u8>> {
    match slice {
        Some(bytes) => Some(bytes@),
        None => None,
    }
}

/// A label file as a value: its bytes, and how far its reader has advanced.
pub struct LabelFile {
    pub bytes: Seq<u8>,
    pub cursor: nat,
}

impl LabelFile {
    /// The first header field.
    pub open spec fn magic(self) -> int {
        be_u32(self.bytes, 0)
    }

    /// The second header field: how many labels the file declares.
    pub open spec fn count(self) -> int {
        be_u32(self.bytes, 4)
    }

    /// Whether every declared label is present in the buffer.
    pub open spec fn complete(self) -> bool {
        LABEL_HEADER_LEN + self.count() <= self.bytes.len()
    }

    /// Label `index`, when the file declares it.
    pub open spec fn get(self, index: int) -> Option<u8> {
        if index >= self.count() {
            None
        } else {
            Some(self.bytes[LABEL_HEADER_LEN + index])
        }
    }

    /// Offset of the first byte of batch `index`.
    pub open spec fn batch_start(self, index: int, batch_size: int) -> int {
        LABEL_HEADER_LEN + index * batch_size
    }

    /// Offset behind the last byte of batch `index`: never behind the buffer.
    pub open spec fn batch_end(self, index: int, batch_size: int) -> int {
        vstd::math::min(self.batch_start(index, batch_size) + batch_size, self.bytes.len() as int)
    }

    /// Batch `index` of `batch_size` labels, when the file declares label
    /// `index`; shorter than `batch_size` where the buffer ends first.
    pub open spec fn get_batch(self, index: int, batch_size: int) -> Option<Seq<u8>> {
        if index >= self.count() {
            None
        } else {
            Some(
                self.bytes.subrange(
                    self.batch_start(index, batch_size),
                    self.batch_end(index, batch_size),
                ),
            )
        }
    }
}

/// The decoded labels of one partition.
pub struct MNistLabels {
    index: usize,
    data: Vec<u8>,
    count: u32,
    magic: u32,
}

impl View for MNistLabels {
    type V = LabelFile;

    closed spec fn view(&self) -> LabelFile {
        LabelFile { bytes: self.data@, cursor: self.index as nat }
    }
}

impl MNistLabels {
    /// The stored header fields are those of the buffer.
    #[verifier::type_invariant]
    spec fn header_matches(&self) -> bool {
        &&& self.data@.len() >= LABEL_HEADER_LEN
        &&& self.magic == be_u32(self.data@, 0)
        &&& self.count == be_u32(self.data@, 4)
    }

    /// Decodes the contents of a label file.
    pub fn from_ubyte(data: Vec<u8>) -> (labels: Self)
        requires
            data.len() >= LABEL_HEADER_LEN,
        ensures
            labels@ == (LabelFile { bytes: data@, cursor: 0 }),
    {
        let magic = read_be_u32(&data, 0);
        let count = read_be_u32(&data, 4);
        Self { index: 0, count, magic, data }
    }

    /// The magic number of the header.
    pub fn magic(&self) -> (magic: u32)
        ensures
            magic == self@.magic(),
    {
        proof {
            use_type_invariant(self);
        }
        self.magic
    }

    /// How many items the header declares.
    pub fn count(&self) -> (count: u32)
        ensures
            count == self@.count(),
    {
        proof {
            use_type_invariant(self);
        }
        self.count
    }

    /// Label `index`, or `None` behind the last declared label.
    pub fn get(&self, index: u32) -> (label: Option<u8>)
        requires
            index < self@.count() ==> LABEL_HEADER_LEN + index < self@.bytes.len(),
        ensures
            label == self@.get(index as int),
    {
        proof {
            use_type_invariant(self);
        }
        if index >= self.count {
            return None;
        }
        let len = self.data.len();
        assert(LABEL_HEADER_LEN + index < len);
        Some(self.data[LABEL_HEADER_LEN + index as usize])
    }

    /// The labels of batch `index`, or `None` where `index` is no declared
    /// label. The batch ends where the buffer ends.
    pub fn get_batch(&self, index: u32, batch_size: u32) -> (batch: Option<&[u8]>)
        requires
            index < self@.count() ==> self@.batch_start(index as int, batch_size as int)
                <= self@.bytes.len(),
        ensures
            contents(batch) == self@.get_batch(index as int, batch_size as int),
    {
        proof {
            use_type_invariant(self);
        }
        if index >= self.count {
            return None;
        }
        let len = self.data.len();
        let start = LABEL_HEADER_LEN + (index as u64 * batch_size as u64) as usize;
        let end = if batch_size as usize > len - start {
            len
        } else {
            start + batch_size as usize
        };
        Some(slice_subrange(self.data.as_slice(), start, end))
    }

    /// Advances the reader by one.
    pub fn increment(&mut self)
        requires
            old(self)@.cursor < usize::MAX,
        ensures
            final(self)@ == (LabelFile { cursor: old(self)@.cursor + 1, ..old(self)@ }),
    {
        proof {
            use_type_invariant(&*self);
        }
        self.index += 1;
    }
}

/// An image file as a value: its bytes.
pub struct ImageFile {
    pub bytes: Seq<u8>,
}

impl ImageFile {
    /// The first header field.
    pub open spec fn magic(self) -> int {
        be_u32(self.bytes, 0)
    }

    /// The second header field: how many images the file declares.
    pub open spec fn count(self) -> int {
        be_u32(self.bytes, 4)
    }

    /// The third header field: rows per image.
    pub open spec fn height(self) -> int {
        be_u32(self.bytes, 8)
    }

    /// The fourth header field: pixels per row.
    pub open spec fn width(self) -> int {
        be_u32(self.bytes, 12)
    }

    /// Bytes per image: one per pixel.
    pub open spec fn image_len(self) -> int {
        self.width() * self.height()
    }

    /// Offset of the first pixel of image `index`.
    pub open spec fn image_start(self, index: int) -> int {
        IMAGE_HEADER_LEN + index * self.image_len()
    }

    /// Offset behind the last pixel of image `index`.
    pub open spec fn image_end(self, index: int) -> int {
        self.image_start(index) + self.image_len()
    }

    /// The pixels of image `index`, row by row.
    pub open spec fn image(self, index: int) -> Seq<u8> {
        self.bytes.subrange(self.image_start(index), self.image_end(index))
    }

    /// Whether every declared image is present in the buffer.
    pub open spec fn complete(self) -> bool {
        self.image_start(self.count()) <= self.bytes.len()
    }

    /// Image `index`, when the file declares it and the buffer holds all of it.
    pub open spec fn get(self, index: int) -> Option<Seq<u8>> {
        if index >= self.count() || self.image_end(index) > self.bytes.len() {
            None
        } else {
            Some(self.image(index))
        }
    }

    /// Offset of the first pixel of batch `index`.
    pub open spec fn batch_start(self, index: int, batch_size: int) -> int {
        IMAGE_HEADER_LEN + index * batch_size * self.image_len()
    }

    /// Offset behind the last pixel of batch `index`: never behind the buffer.
    pub open spec fn batch_end(self, index: int, batch_size: int) -> int {
        vstd::math::min(
            self.batch_start(index, batch_size) + batch_size * self.image_len(),
            self.bytes.len() as int,
        )
    }

    /// Batch `index` of `batch_size` images, one behind the other, when the
    /// file declares image `index`; shorter where the buffer ends first.
    pub open spec fn get_batch(self, index: int, batch_size: int) -> Option<Seq<u8>> {
        if index >= self.count() {
            None
        } else {
            Some(
                self.bytes.subrange(
                    self.batch_start(index, batch_size),
                    self.batch_end(index, batch_size),
                ),
            )
        }
    }
}

/// Where a read of one image ended.
#[derive(Clone, Copy, Debug, PartialEq, Eq)]
pub enum ImageLookup<'a> {
    /// The file declares no such image.
    Absent,
    /// The file declares the image, but the buffer ends before the image does.
    Truncated { start: u128, end: u128, len: usize },
    /// The pixels of the image.
    Found(&'a [u8]),
}

/// The decoded images of one partition.
pub struct MnistImages {
    data: Vec<u8>,
    count: u32,
    magic: u32,
    width: u32,
    height: u32,
}

impl View for MnistImages {
    type V = ImageFile;

    closed spec fn view(&self) -> ImageFile {
        ImageFile { bytes: self.data@ }
    }
}

/// Two 32-bit factors give a product below 2^64, three one below 2^96.
proof fn lemma_products_bounded(a: int, b: int, c: int)
    requires
        0 <= a <= u32::MAX,
        0 <= b <= u32::MAX,
        0 <= c <= u32::MAX,
    ensures
        0 <= a * b <= 0xFFFF_FFFE_0000_0001,
        0 <= c * (a * b) <= 0xFFFF_FFFD_0000_0002_FFFF_FFFF,
{
    assert(0 <= a * b <= 0xFFFF_FFFF * 0xFFFF_FFFF) by (nonlinear_arith)
        requires
            0 <= a <= 0xFFFF_FFFF,
            0 <= b <= 0xFFFF_FFFF,
    ;
    let ab = a * b;
    assert(0 <= c * ab <= 0xFFFF_FFFF * 0xFFFF_FFFE_0000_0001) by (nonlinear_arith)
        requires
            0 <= c <= 0xFFFF_FFFF,
            0 <= ab <= 0xFFFF_FFFE_0000_0001,
    ;
}

impl MnistImages {
    /// The stored header fields are those of the buffer.
    #[verifier::type_invariant]
    spec fn header_matches(&self) -> bool {
        &&& self.data@.len() >= IMAGE_HEADER_LEN
        &&& self.magic == be_u32(self.data@, 0)
        &&& self.count == be_u32(self.data@, 4)
        &&& self.height == be_u32(self.data@, 8)
        &&& self.width == be_u32(self.data@, 12)
    }

    /// Decodes the contents of an image file.
    pub fn from_ubyte(data: Vec<u8>) -> (images: Self)
        requires
            data.len() >= IMAGE_HEADER_LEN,
        ensures
            images@ == (ImageFile { bytes: data@ }),
    {
        let magic = read_be_u32(&data, 0);
        let count = read_be_u32(&data, 4);
        let height = read_be_u32(&data, 8);
        let width = read_be_u32(&data, 12);
        Self { data, count, magic, width, height }
    }

    /// The magic number of the header.
    pub fn magic(&self) -> (magic: u32)
        ensures
            magic == self@.magic(),
    {
        proof {
            use_type_invariant(self);
        }
        self.magic
    }

    /// How many items the header declares.
    pub fn count(&self) -> (count: u32)
        ensures
            count == self@.count(),
    {
        proof {
            use_type_invariant(self);
        }
        self.count
    }

    /// Pixels per row, from the header.
    pub fn width(&self) -> (width: usize)
        ensures
            width == self@.width(),
    {
        proof {
            use_type_invariant(self);
        }
        self.width as usize
    }

    /// Rows per image, from the header.
    pub fn height(&self) -> (height: usize)
        ensures
            height == self@.height(),
    {
        proof {
            use_type_invariant(self);
        }
        self.height as usize
    }

    /// Finds image `index`, and says where it should lie when the buffer is
    /// too short to hold it.
    pub fn lookup(&self, index: u32) -> (found: ImageLookup<'_>)
        ensures
            match found {
                ImageLookup::Absent => index >= self@.count(),
                ImageLookup::Truncated { start, end, len } => {
                    &&& index < self@.count()
                    &&& start == self@.image_start(index as int)
                    &&& end == self@.image_end(index as int)
                    &&& len == self@.bytes.len()
                    &&& end > len
                },
                ImageLookup::Found(pixels) => {
                    &&& index < self@.count()
                    &&& self@.image_end(index as int) <= self@.bytes.len()
                    &&& pixels@ == self@.image(index as int)
                },
            },
    {
        proof {
            use_type_invariant(self);
            lemma_products_bounded(self.width as int, self.height as int, index as int);
        }
        if index >= self.count {
            return ImageLookup::Absent;
        }
        let len = self.data.len();
        let image_len: u128 = self.width as u128 * self.height as u128;
        let start: u128 = IMAGE_HEADER_LEN as u128 + index as u128 * image_len;
        let end: u128 = start + image_len;
        if end > len as u128 {
            return ImageLookup::Truncated { start, end, len };
        }
        ImageLookup::Found(slice_subrange(self.data.as_slice(), start as usize, end as usize))
    }

    /// The pixels of image `index`, `width * height` of them, or `None` where
    /// the file declares no such image or the buffer ends before it does.
    pub fn get(&self, index: u32) -> (image: Option<&[u8]>)
        ensures
            contents(image) == self@.get(index as int),
            image matches Some(pixels) ==> pixels@.len() == self@.width() * self@.height(),
    {
        match self.lookup(index) {
            ImageLookup::Found(pixels) => {
                proof {
                    use_type_invariant(self);
                    lemma_products_bounded(self.width as int, self.height as int, index as int);
                }
                Some(pixels)
            },
            _ => None,
        }
    }

    /// The pixels of batch `index`, image behind image, or `None` where
    /// `index` is no declared image. The batch ends where the buffer ends.
    pub fn get_batch(&self, index: u32, batch_size: u32) -> (batch: Option<&[u8]>)
        requires
            index < self@.count() ==> self@.batch_start(index as int, batch_size as int)
                <= self@.bytes.len(),
        ensures
            contents(batch) == self@.get_batch(index as int, batch_size as int),
    {
        proof {
            use_type_invariant(self);
            lemma_products_bounded(self.width as int, self.height as int, batch_size as int);
            lemma_products_bounded(index as int, batch_size as int, 0);
        }
        if index >= self.count {
            return None;
        }
        let len = self.data.len();
        let image_len: u128 = self.width as u128 * self.height as u128;
        let first: u128 = index as u128 * batch_size as u128;
        let start: usize = IMAGE_HEADER_LEN + (first * image_len) as usize;
        let wanted: u128 = batch_size as u128 * image_len;
        let end = if wanted > (len - start) as u128 {
            len
        } else {
            start + wanted as usize
        };
        Some(slice_subrange(self.data.as_slice(), start, end))
    }
}

/// The four decoded files of the dataset.
pub struct Mnist {
    pub train_images: MnistImages,
    pub train_labels: MNistLabels,
    pub test_images: MnistImages,
    pub test_labels: MNistLabels,
}

/// The dataset as a value: its four files.
pub struct MnistFiles {
    pub train_images: ImageFile,
    pub train_labels: LabelFile,
    pub test_images: ImageFile,
    pub test_labels: LabelFile,
}

impl View for Mnist {
    type V = MnistFiles;

    open spec fn view(&self) -> MnistFiles {
        MnistFiles {
            train_images: self.train_images@,
            train_labels: self.train_labels@,
            test_images: self.test_images@,
            test_labels: self.test_labels@,
        }
    }
}

impl Mnist {
    /// Decodes the contents of the four files.
    pub fn load(
        train_images: Vec<u8>,
        train_labels: Vec<u8>,
        test_images: Vec<u8>,
        test_labels: Vec<u8>,
    ) -> (dataset: Self)
        requires
            train_images.len() >= IMAGE_HEADER_LEN,
            train_labels.len() >= LABEL_HEADER_LEN,
            test_images.len() >= IMAGE_HEADER_LEN,
            test_labels.len() >= LABEL_HEADER_LEN,
        ensures
            dataset@ == (MnistFiles {
                train_images: ImageFile { bytes: train_images@ },
                train_labels: LabelFile { bytes: train_labels@, cursor: 0 },
                test_images: ImageFile { bytes: test_images@ },
                test_labels: LabelFile { bytes: test_labels@, cursor: 0 },
            }),
    {
        Self {
            train_images: MnistImages::from_ubyte(train_images),
            train_labels: MNistLabels::from_ubyte(train_labels),
            test_images: MnistImages::from_ubyte(test_images),
            test_labels: MNistLabels::from_ubyte(test_labels),
        }
    }
}

/// The bytes of a label file with this magic number and these labels.
pub open spec fn label_file(magic: u32, labels: Seq<u8>) -> Seq<u8> {
    be_bytes(magic) + be_bytes(labels.len() as u32) + labels
}

/// The bytes of an image file with these header fields and pixels.
pub open spec fn image_file(magic: u32, count: u32, height: u32, width: u32, pixels: Seq<u8>) -> Seq<
    u8,
> {
    be_bytes(magic) + be_bytes(count) + be_bytes(height) + be_bytes(width) + pixels
}

/// Decoding a label file built from a magic number and labels gives both
/// back: the header fields, and label by label what was put in.
pub proof fn lemma_label_file_round_trip(magic: u32, labels: Seq<u8>)
    requires
        labels.len() <= u32::MAX,
    ensures
        ({
            let file = LabelFile { bytes: label_file(magic, labels), cursor: 0 };
            &&& file.magic() == magic
            &&& file.count() == labels.len()
            &&& file.complete()
            &&& forall|i: int| 0 <= i < labels.len() ==> file.get(i) == Some(labels[i])
            &&& forall|i: int| i >= labels.len() ==> file.get(i) is None
        }),
{
    let bytes = label_file(magic, labels);
    assert(bytes.subrange(0, 4) == be_bytes(magic));
    assert(bytes.subrange(4, 8) == be_bytes(labels.len() as u32));
    lemma_be_u32_of_be_bytes(bytes, 0, magic);
    lemma_be_u32_of_be_bytes(bytes, 4, labels.len() as u32);
}

/// Decoding an image file built from header fields and pixels gives both
/// back: the header fields, and image by image what was put in.
pub proof fn lemma_image_file_round_trip(
    magic: u32,
    count: u32,
    height: u32,
    width: u32,
    pixels: Seq<u8>,
)
    requires
        pixels.len() == count * (width * height),
    ensures
        ({
            let file = ImageFile { bytes: image_file(magic, count, height, width, pixels) };
            let image_len = width * height;
            &&& file.magic() == magic
            &&& file.count() == count
            &&& file.height() == height
            &&& file.width() == width
            &&& file.complete()
            &&& forall|i: int|
                0 <= i < count ==> file.get(i) == Some(
                    pixels.subrange(i * image_len, (i + 1) * image_len),
                )
            &&& forall|i: int| i >= count ==> file.get(i) is None
        }),
{
    let bytes = image_file(magic, count, height, width, pixels);
    let file = ImageFile { bytes };
    let image_len = width * height;
    assert(bytes.subrange(0, 4) == be_bytes(magic));
    assert(bytes.subrange(4, 8) == be_bytes(count));
    assert(bytes.subrange(8, 12) == be_bytes(height));
    assert(bytes.subrange(12, 16) == be_bytes(width));
    lemma_be_u32_of_be_bytes(bytes, 0, magic);
    lemma_be_u32_of_be_bytes(bytes, 4, count);
    lemma_be_u32_of_be_bytes(bytes, 8, height);
    lemma_be_u32_of_be_bytes(bytes, 12, width);
    assert(image_len >= 0) by (nonlinear_arith)
        requires
            image_len == width * height,
    ;
    assert forall|i: int| 0 <= i < count implies file.get(i) == Some(
        pixels.subrange(i * image_len, (i + 1) * image_len),
    ) by {
        assert(0 <= i * image_len && (i + 1) * image_len == i * image_len + image_len && (i + 1)
            * image_len <= count * image_len) by (nonlinear_arith)
            requires
                0 <= i < count,
                image_len >= 0,
        ;
        assert(file.image(i) == pixels.subrange(i * image_len, (i + 1) * image_len));
    }
}

/// A complete label file holds every label it declares.
pub proof fn lemma_complete_labels(file: LabelFile, index: int)
    requires
        file.complete(),
        0 <= index < file.count(),
    ensures
        LABEL_HEADER_LEN + index < file.bytes.len(),
        file.get(index) == Some(file.bytes[LABEL_HEADER_LEN + index]),
{
}

/// A complete image file holds every image it declares, each of `width *
/// height` bytes.
pub proof fn lemma_complete_images(file: ImageFile, index: int)
    requires
        file.complete(),
        0 <= index < file.count(),
    ensures
        file.get(index) == Some(file.image(index)),
        file.image(index).len() == file.width() * file.height(),
{
    let image_len = file.image_len();
    let count = file.count();
    assert(image_len >= 0) by (nonlinear_arith)
        requires
            image_len == file.width() * file.height(),
            file.width() >= 0,
            file.height() >= 0,
    ;
    assert(0 <= index * image_len && index * image_len + image_len <= count * image_len)
        by (nonlinear_arith)
        requires
            0 <= index < count,
            image_len >= 0,
    ;
}

/// A batch of one label is that label.
pub proof fn lemma_label_batch_of_one(file: LabelFile, index: int)
    requires
        0 <= index < file.count(),
        LABEL_HEADER_LEN + index < file.bytes.len(),
    ensures
        file.get(index) matches Some(label) && file.get_batch(index, 1) == Some(seq![label]),
{
    assert(index * 1 == index);
    assert(file.bytes.subrange(LABEL_HEADER_LEN + index, LABEL_HEADER_LEN + index + 1) == seq![
        file.bytes[LABEL_HEADER_LEN + index],
    ]);
}

/// A batch of one image is that image, where the buffer holds all of it.
pub proof fn lemma_image_batch_of_one(file: ImageFile, index: int)
    requires
        0 <= index,
        file.get(index) is Some,
    ensures
        file.get_batch(index, 1) == file.get(index),
{
    let image_len = file.image_len();
    assert(index * 1 * image_len == index * image_len && 1 * image_len == image_len)
        by (nonlinear_arith);
}

/// A batch of labels that would run past the buffer holds what is left of
/// the buffer from its start on.
pub proof fn lemma_label_batch_truncated(file: LabelFile, index: int, batch_size: int)
    requires
        0 <= index < file.count(),
        file.batch_start(index, batch_size) <= file.bytes.len(),
        file.batch_start(index, batch_size) + batch_size > file.bytes.len(),
    ensures
        file.get_batch(index, batch_size) == Some(
            file.bytes.skip(file.batch_start(index, batch_size)),
        ),
{
}

/// A batch of images that would run past the buffer holds what is left of
/// the buffer from its start on.
pub proof fn lemma_image_batch_truncated(file: ImageFile, index: int, batch_size: int)
    requires
        0 <= index < file.count(),
        file.batch_start(index, batch_size) <= file.bytes.len(),
        file.batch_start(index, batch_size) + batch_size * file.image_len() > file.bytes.len(),
    ensures
        file.get_batch(index, batch_size) == Some(
            file.bytes.skip(file.batch_start(index, batch_size)),
        ),
{
}

} // verus!
