use vstd::prelude::*;

verus! {

/// The error type of the underlying storage.
#[verifier::external_type_specification]
#[verifier::external_body]
pub struct ExIoError(std::io::Error);

/// Where a seek moves the cursor to.
#[derive(Clone, Copy, Debug, PartialEq, Eq, Structural)]
pub enum SeekFrom {
    /// To this many bytes from the start.
    Start(u64),
    /// To the end of the image, plus this many bytes.
    End(i64),
    /// To the current position, plus this many bytes.
    Current(i64),
}

/// `img` with `buf` written over it from byte `at` on: the image grows to
/// hold the whole of `buf`, and a gap between its old end and `at` reads as
/// zeros.
pub open spec fn spliced(img: Seq<u8>, at: int, buf: Seq<u8>) -> Seq<u8> {
    Seq::new(
        if img.len() >= at + buf.len() {
            img.len()
        } else {
            (at + buf.len()) as nat
        },
        |i: int|
            if at <= i < at + buf.len() {
                buf[i - at]
            } else if i < img.len() {
                img[i]
            } else {
                0u8
            },
    )
}

/// The storage that holds a filesystem image: a byte cursor that can be read,
/// written, moved and flushed.
///
/// Opening and creating an image is left to the implementor; the layers of
/// this library only ever move bytes through an existing one. The contracts
/// speak of the image as its bytes, `image`, and a cursor, `cursor`, which
/// an implementation defines; the defaults, an empty image with the cursor
/// at zero, only serve implementations that are never verified.
pub trait Backend: Sized {
    /// The bytes of the image.
    open spec fn image(&self) -> Seq<u8> {
        Seq::empty()
    }

    /// The position of the cursor.
    open spec fn cursor(&self) -> nat {
        0
    }

    /// Reads at most `buf.len()` bytes at the cursor into the front of `buf`.
    fn read(&mut self, buf: &mut Vec<u8>) -> (r: Result<usize, std::io::Error>)
        ensures
            final(buf)@.len() == old(buf)@.len(),
            r is Ok ==> r->Ok_0 <= old(buf)@.len(),
    ;

    /// Fills the whole of `buf` from the cursor and moves the cursor past
    /// it, or fails; it fails when the image ends first.
    fn read_exact(&mut self, buf: &mut Vec<u8>) -> (r: Result<(), std::io::Error>)
        ensures
            final(buf)@.len() == old(buf)@.len(),
            r is Ok ==> {
                &&& old(self).cursor() + old(buf)@.len() <= old(self).image().len()
                &&& final(buf)@ == old(self).image().subrange(
                    old(self).cursor() as int,
                    (old(self).cursor() + old(buf)@.len()) as int,
                )
                &&& final(self).image() == old(self).image()
                &&& final(self).cursor() == old(self).cursor() + old(buf)@.len()
            },
    ;

    /// Writes at most `buf.len()` bytes of the front of `buf` at the cursor.
    fn write(&mut self, buf: &[u8]) -> (r: Result<usize, std::io::Error>)
        ensures
            r is Ok ==> r->Ok_0 <= buf@.len(),
    ;

    /// Writes the whole of `buf` at the cursor and moves the cursor past it,
    /// or fails.
    fn write_all(&mut self, buf: &[u8]) -> (r: Result<(), std::io::Error>)
        ensures
            r is Ok ==> {
                &&& final(self).image() == spliced(old(self).image(), old(self).cursor() as int, buf@)
                &&& final(self).cursor() == old(self).cursor() + buf@.len()
            },
    ;

    /// Hands buffered writes on to the layer below; the image and the cursor
    /// stay as they are.
    fn flush(&mut self) -> (r: Result<(), std::io::Error>)
        ensures
            r is Ok ==> final(self).image() == old(self).image() && final(self).cursor() == old(
                self,
            ).cursor(),
    ;

    /// Moves the cursor and returns its new position; the image stays as it
    /// is.
    fn seek(&mut self, pos: SeekFrom) -> (r: Result<u64, std::io::Error>)
        ensures
            r is Ok ==> {
                &&& final(self).image() == old(self).image()
                &&& final(self).cursor() == r->Ok_0
                &&& pos matches SeekFrom::Start(p) ==> r->Ok_0 == p
            },
    ;

    /// The position of the cursor, which stays where it is.
    fn stream_position(&mut self) -> (r: Result<u64, std::io::Error>)
        ensures
            r is Ok ==> {
                &&& r->Ok_0 == old(self).cursor()
                &&& final(self).image() == old(self).image()
                &&& final(self).cursor() == old(self).cursor()
            },
    ;

    /// Makes every write so far durable, down to the storage itself; the
    /// image and the cursor stay as they are.
    fn real_flush(&mut self) -> (r: Result<(), std::io::Error>)
        ensures
            r is Ok ==> final(self).image() == old(self).image() && final(self).cursor() == old(
                self,
            ).cursor(),
    {
        self.flush()
    }
}

} // verus!
