//! One split of one file.
//!
//! The buffer is cut at the middle of its length. What the two pieces are
//! called, and which range each claims, follows from the header that the
//! buffer carries or, where it carries none, from its length. Where the bytes
//! are cut never depends on the ranges.

use vstd::prelude::*;
use vstd::string::*;
use crate::bisect::{bisect_fresh, bisect_resumed, fresh_ranges, resumed_ranges};
use crate::error::SplitError;
use crate::naming::{file_name, half_file_name};
use crate::signature::{
    decode_spec, header_bytes, header_fields, is_tagged, lemma_encode_decode_roundtrip,
    lemma_header_fields_roundtrip, Signature,
};

verus! {

/// Which half of a split.
#[derive(Clone, Copy, Debug, PartialEq, Eq, Structural)]
pub enum SplitHalf {
    Left,
    Right,
}

/// The bytes of a file with their length and the index they are cut at.
struct Buffer {
    bytes: Vec<u8>,
    size: usize,
    middle: usize,
}

impl Buffer {
    #[verifier::type_invariant]
    spec fn well_formed(self) -> bool {
        &&& self.size == self.bytes@.len()
        &&& self.middle == self.size / 2
    }
}

/// A file about to be split: the stem of its name, its bytes, and the ranges
/// given to its two halves so far.
pub struct SplitFile {
    stem: Option<String>,
    buffer: Buffer,
    left_sig: Signature,
    right_sig: Signature,
}

/// What a [`SplitFile`] holds, as plain values.
pub struct SplitFileView {
    pub stem: Option<Seq<char>>,
    pub bytes: Seq<u8>,
    pub left_sig: Signature,
    pub right_sig: Signature,
}

/// One file to write: a half with its header in front.
#[derive(Debug)]
pub struct HalfFile {
    pub signature: Signature,
    pub name: String,
    pub contents: Vec<u8>,
}

/// What a [`HalfFile`] holds, as plain values.
pub struct HalfFileView {
    pub signature: Signature,
    pub name: Seq<char>,
    pub contents: Seq<u8>,
}

/// The result of a split: the range that the input carried, if it carried
/// one, and the two files to write.
#[derive(Debug)]
pub struct SplitOutput {
    pub found: Option<Signature>,
    pub left: HalfFile,
    pub right: HalfFile,
}

/// What a [`SplitOutput`] holds, as plain values.
pub struct SplitOutputView {
    pub found: Option<Signature>,
    pub left: HalfFileView,
    pub right: HalfFileView,
}

impl View for HalfFile {
    type V = HalfFileView;

    open spec fn view(&self) -> HalfFileView {
        HalfFileView { signature: self.signature, name: self.name@, contents: self.contents@ }
    }
}

impl View for SplitOutput {
    type V = SplitOutputView;

    open spec fn view(&self) -> SplitOutputView {
        SplitOutputView { found: self.found, left: self.left@, right: self.right@ }
    }
}

impl View for SplitFile {
    type V = SplitFileView;

    closed spec fn view(&self) -> SplitFileView {
        SplitFileView {
            stem: stem_text(self.stem),
            bytes: self.buffer.bytes@,
            left_sig: self.left_sig,
            right_sig: self.right_sig,
        }
    }
}

/// A stem as a sequence of characters.
pub open spec fn stem_text(stem: Option<String>) -> Option<Seq<char>> {
    match stem {
        Some(text) => Some(text@),
        None => None,
    }
}

/// The index a buffer is cut at: half its length, rounded down.
pub open spec fn middle_of(bytes: Seq<u8>) -> int {
    bytes.len() as int / 2
}

/// The bytes of one half: those before the middle, or those from it on.
pub open spec fn half_data(bytes: Seq<u8>, half: SplitHalf) -> Seq<u8> {
    match half {
        SplitHalf::Left => bytes.subrange(0, middle_of(bytes)),
        SplitHalf::Right => bytes.subrange(middle_of(bytes), bytes.len() as int),
    }
}

/// The ranges that a split gives to the halves of `bytes`: those of a further
/// split where `bytes` is tagged, those of a first split where it is not.
pub open spec fn child_ranges(bytes: Seq<u8>) -> Result<(Signature, Signature), SplitError> {
    match decode_spec(bytes) {
        Ok(Some(sig)) => Ok(resumed_ranges(sig)),
        Ok(None) => if bytes.len() <= u32::MAX {
            Ok(fresh_ranges(bytes.len()))
        } else {
            Err(SplitError::OffsetOverflow)
        },
        Err(e) => Err(e),
    }
}

/// The file that holds one half: named after its range and the stem, and made
/// of the range's header and the half's bytes.
pub open spec fn half_file(sig: Signature, stem: Seq<char>, bytes: Seq<u8>, half: SplitHalf)
    -> HalfFileView {
    HalfFileView {
        signature: sig,
        name: file_name(sig, stem),
        contents: header_bytes(sig) + half_data(bytes, half),
    }
}

/// What splitting `bytes`, read from a file with stem `stem`, comes to. A
/// corrupt header or an oversized file is reported before a missing stem.
pub open spec fn split_spec(stem: Option<Seq<char>>, bytes: Seq<u8>) -> Result<
    SplitOutputView,
    SplitError,
> {
    match child_ranges(bytes) {
        Err(e) => Err(e),
        Ok(ranges) => match stem {
            None => Err(SplitError::MissingStem),
            Some(stem) => Ok(
                SplitOutputView {
                    found: decode_spec(bytes)->Ok_0,
                    left: half_file(ranges.0, stem, bytes, SplitHalf::Left),
                    right: half_file(ranges.1, stem, bytes, SplitHalf::Right),
                },
            ),
        },
    }
}

impl SplitFile {
    /// Takes in a file: the stem of its name, if it has one, and its bytes.
    /// Both halves start out with the empty range at offset zero.
    pub fn new(stem: Option<String>, bytes: Vec<u8>) -> (split: SplitFile)
        ensures
            split@ == (SplitFileView {
                stem: stem_text(stem),
                bytes: bytes@,
                left_sig: Signature { start_offset: 0, end_offset: 0 },
                right_sig: Signature { start_offset: 0, end_offset: 0 },
            }),
    {
        let size = bytes.len();
        SplitFile {
            stem,
            buffer: Buffer { bytes, size, middle: size / 2 },
            left_sig: Signature::default(),
            right_sig: Signature::default(),
        }
    }

    /// Length of the file in bytes.
    pub fn size(&self) -> (size: usize)
        ensures
            size == self@.bytes.len(),
    {
        proof {
            use_type_invariant(&self.buffer);
        }
        self.buffer.size
    }

    /// The index the file is cut at.
    pub fn middle(&self) -> (middle: usize)
        ensures
            middle == middle_of(self@.bytes),
    {
        proof {
            use_type_invariant(&self.buffer);
        }
        self.buffer.middle
    }

    /// The bytes of one half. The two halves, left then right, make up the
    /// file.
    pub fn data(&self, half: &SplitHalf) -> (out: &[u8])
        ensures
            out@ == half_data(self@.bytes, *half),
            half_data(self@.bytes, SplitHalf::Left) + half_data(self@.bytes, SplitHalf::Right)
                == self@.bytes,
    {
        proof {
            use_type_invariant(&self.buffer);
            lemma_halves_cover(self@.bytes);
        }
        match half {
            SplitHalf::Left => &self.buffer.bytes[0..self.buffer.middle],
            SplitHalf::Right => &self.buffer.bytes[self.buffer.middle..self.buffer.size],
        }
    }

    /// The left half's range, to be written through.
    pub fn left_sig_mut(&mut self) -> (sig: &mut Signature)
        ensures
            *sig == old(self)@.left_sig,
            final(self)@ == (SplitFileView { left_sig: *final(sig), ..old(self)@ }),
    {
        &mut self.left_sig
    }

    /// The right half's range, to be written through.
    pub fn right_sig_mut(&mut self) -> (sig: &mut Signature)
        ensures
            *sig == old(self)@.right_sig,
            final(self)@ == (SplitFileView { right_sig: *final(sig), ..old(self)@ }),
    {
        &mut self.right_sig
    }

    /// The range of one half.
    pub fn signature(&self, half: &SplitHalf) -> (sig: &Signature)
        ensures
            *sig == match *half {
                SplitHalf::Left => self@.left_sig,
                SplitHalf::Right => self@.right_sig,
            },
    {
        match half {
            SplitHalf::Left => &self.left_sig,
            SplitHalf::Right => &self.right_sig,
        }
    }

    /// Gives one half the range from `start` to `end` and leaves the other
    /// half as it is.
    pub fn set_signature(&mut self, start: u32, end: u32, half: &SplitHalf)
        ensures
            final(self)@ == match *half {
                SplitHalf::Left => SplitFileView {
                    left_sig: Signature { start_offset: start, end_offset: end },
                    ..old(self)@
                },
                SplitHalf::Right => SplitFileView {
                    right_sig: Signature { start_offset: start, end_offset: end },
                    ..old(self)@
                },
            },
    {
        let to_set = Signature { start_offset: start, end_offset: end };
        match half {
            SplitHalf::Left => {
                *self.left_sig_mut() = to_set;
            },
            SplitHalf::Right => {
                *self.right_sig_mut() = to_set;
            },
        }
    }

    /// Looks for a header at the front of the file.
    ///
    /// A tagged file gives back its range and is left as it is; a range that
    /// ends before it starts is an error. An untagged file gives back nothing
    /// and has its halves set to the ranges of a first split, unless its
    /// length does not fit 32 bits, which is an error too. On an error the
    /// file is left as it is.
    pub fn read_signature(&mut self) -> (r: Result<Option<Signature>, SplitError>)
        ensures
            match decode_spec(old(self)@.bytes) {
                Ok(Some(sig)) => r == Ok::<_, SplitError>(Some(sig)) && final(self)@ == old(self)@,
                Ok(None) => if old(self)@.bytes.len() <= u32::MAX {
                    &&& r == Ok::<Option<Signature>, SplitError>(None)
                    &&& final(self)@ == (SplitFileView {
                        left_sig: fresh_ranges(old(self)@.bytes.len()).0,
                        right_sig: fresh_ranges(old(self)@.bytes.len()).1,
                        ..old(self)@
                    })
                } else {
                    &&& r == Err::<Option<Signature>, _>(SplitError::OffsetOverflow)
                    &&& final(self)@ == old(self)@
                },
                Err(e) => r == Err::<Option<Signature>, _>(e) && final(self)@ == old(self)@,
            },
    {
        proof {
            use_type_invariant(&self.buffer);
        }
        match Signature::decode(self.buffer.bytes.as_slice()) {
            Ok(Some(sig)) => Ok(Some(sig)),
            Ok(None) => {
                match bisect_fresh(self.buffer.size) {
                    Ok(halves) => {
                        self.set_signature(
                            halves.0.start_offset,
                            halves.0.end_offset,
                            &SplitHalf::Left,
                        );
                        self.set_signature(
                            halves.1.start_offset,
                            halves.1.end_offset,
                            &SplitHalf::Right,
                        );
                        Ok(None)
                    },
                    Err(e) => Err(e),
                }
            },
            Err(e) => Err(e),
        }
    }

    /// Ranges for both halves: reads the header, as [`Self::read_signature`]
    /// does, and where there is one halves its range.
    pub fn assign_ranges(&mut self) -> (r: Result<Option<Signature>, SplitError>)
        ensures
            match child_ranges(old(self)@.bytes) {
                Ok(ranges) => {
                    &&& r == Ok::<_, SplitError>(decode_spec(old(self)@.bytes)->Ok_0)
                    &&& final(self)@ == (SplitFileView {
                        left_sig: ranges.0,
                        right_sig: ranges.1,
                        ..old(self)@
                    })
                },
                Err(e) => r == Err::<Option<Signature>, _>(e) && final(self)@ == old(self)@,
            },
    {
        match self.read_signature() {
            Ok(Some(sig)) => {
                let halves = bisect_resumed(&sig);
                self.set_signature(halves.0.start_offset, halves.0.end_offset, &SplitHalf::Left);
                self.set_signature(halves.1.start_offset, halves.1.end_offset, &SplitHalf::Right);
                Ok(Some(sig))
            },
            Ok(None) => Ok(None),
            Err(e) => Err(e),
        }
    }

    /// The name of the file that one half goes to. There is none where the
    /// input has no stem.
    pub fn filename(&self, half: &SplitHalf) -> (r: Result<String, SplitError>)
        ensures
            match self@.stem {
                Some(stem) => r matches Ok(name) && name@ == file_name(
                    match *half {
                        SplitHalf::Left => self@.left_sig,
                        SplitHalf::Right => self@.right_sig,
                    },
                    stem,
                ),
                None => r matches Err(e) && e == SplitError::MissingStem,
            },
    {
        let sig = self.signature(half);
        match &self.stem {
            Some(stem) => Ok(half_file_name(sig, stem.as_str())),
            None => Err(SplitError::MissingStem),
        }
    }

    /// One half as a file: its name, and its bytes behind the header of its
    /// range.
    pub fn half(&self, half: &SplitHalf) -> (r: Result<HalfFile, SplitError>)
        ensures
            match self@.stem {
                Some(stem) => r matches Ok(file) && file@ == half_file(
                    match *half {
                        SplitHalf::Left => self@.left_sig,
                        SplitHalf::Right => self@.right_sig,
                    },
                    stem,
                    self@.bytes,
                    *half,
                ),
                None => r matches Err(e) && e == SplitError::MissingStem,
            },
    {
        let name = match self.filename(half) {
            Ok(name) => name,
            Err(e) => {
                return Err(e);
            },
        };
        let signature = *self.signature(half);
        let contents = frame(&signature, self.data(half));
        Ok(HalfFile { signature, name, contents })
    }

    /// The two files that saving this split writes, left and right. Nothing is
    /// to be written where the input has no stem.
    pub fn save(&self) -> (r: Result<(HalfFile, HalfFile), SplitError>)
        ensures
            match self@.stem {
                Some(stem) => {
                    &&& r matches Ok(files)
                    &&& files.0@ == half_file(self@.left_sig, stem, self@.bytes, SplitHalf::Left)
                    &&& files.1@ == half_file(self@.right_sig, stem, self@.bytes, SplitHalf::Right)
                },
                None => r matches Err(e) && e == SplitError::MissingStem,
            },
    {
        let left = match self.half(&SplitHalf::Left) {
            Ok(file) => file,
            Err(e) => {
                return Err(e);
            },
        };
        let right = match self.half(&SplitHalf::Right) {
            Ok(file) => file,
            Err(e) => {
                return Err(e);
            },
        };
        Ok((left, right))
    }
}

/// The two halves of a buffer, left then right, are the buffer: the cut loses
/// no byte and repeats none.
pub proof fn lemma_halves_cover(bytes: Seq<u8>)
    ensures
        half_data(bytes, SplitHalf::Left) + half_data(bytes, SplitHalf::Right) == bytes,
        half_data(bytes, SplitHalf::Left).len() + half_data(bytes, SplitHalf::Right).len()
            == bytes.len(),
        half_data(bytes, SplitHalf::Left).len() == bytes.len() / 2,
{
    assert(half_data(bytes, SplitHalf::Left) + half_data(bytes, SplitHalf::Right) =~= bytes);
}

/// A first split tags both halves. Splitting an untagged buffer of more than
/// twelve bytes whose length `n` fits 32 bits writes a left file that decodes
/// to `(0, n / 2)` and a right file that decodes to `(n / 2 + 1, n)`.
pub proof fn lemma_first_split_decodes(stem: Seq<char>, bytes: Seq<u8>)
    requires
        bytes.len() > 12,
        bytes.len() <= u32::MAX,
        !is_tagged(bytes),
    ensures
        split_spec(Some(stem), bytes) matches Ok(out) && {
            &&& out.found == None::<Signature>
            &&& decode_spec(out.left.contents) == Ok::<_, SplitError>(
                Some(Signature { start_offset: 0, end_offset: (bytes.len() / 2) as u32 }),
            )
            &&& decode_spec(out.right.contents) == Ok::<_, SplitError>(
                Some(
                    Signature {
                        start_offset: (bytes.len() / 2 + 1) as u32,
                        end_offset: bytes.len() as u32,
                    },
                ),
            )
        },
{
    let ranges = fresh_ranges(bytes.len());
    lemma_halves_cover(bytes);
    lemma_encode_decode_roundtrip(ranges.0, half_data(bytes, SplitHalf::Left));
    lemma_encode_decode_roundtrip(ranges.1, half_data(bytes, SplitHalf::Right));
}

/// A further split halves the range it finds. Splitting a buffer tagged with
/// the ordered range `(s, e)` writes a left file that decodes to `(s, m)` and
/// a right file that decodes to `(m, e)`, where `m` is `s + (e - s) / 2`: the
/// right half starts at the middle itself, not one past it.
pub proof fn lemma_resumed_split_decodes(stem: Seq<char>, bytes: Seq<u8>)
    requires
        is_tagged(bytes),
        header_fields(bytes).is_ordered(),
    ensures
        split_spec(Some(stem), bytes) matches Ok(out) && {
            let sig = header_fields(bytes);
            let middle = (sig.start_offset + (sig.end_offset - sig.start_offset) / 2) as u32;
            &&& out.found == Some(sig)
            &&& out.left.signature == (Signature {
                start_offset: sig.start_offset,
                end_offset: middle,
            })
            &&& out.right.signature == (Signature {
                start_offset: middle,
                end_offset: sig.end_offset,
            })
            &&& decode_spec(out.left.contents) == Ok::<_, SplitError>(Some(out.left.signature))
            &&& decode_spec(out.right.contents) == Ok::<_, SplitError>(Some(out.right.signature))
        },
{
    let ranges = resumed_ranges(header_fields(bytes));
    lemma_halves_cover(bytes);
    lemma_encode_decode_roundtrip(ranges.0, half_data(bytes, SplitHalf::Left));
    lemma_encode_decode_roundtrip(ranges.1, half_data(bytes, SplitHalf::Right));
}

/// A tagged buffer whose range ends before it starts is never split: the
/// result is an error, whatever the stem, and so names no file to write.
pub proof fn lemma_corrupt_header_never_split(stem: Option<Seq<char>>, bytes: Seq<u8>)
    requires
        is_tagged(bytes),
        !header_fields(bytes).is_ordered(),
    ensures
        split_spec(stem, bytes) == Err::<SplitOutputView, _>(SplitError::CorruptSignature),
{
}

/// Every split either fails or writes the whole input: the payloads of the
/// two files, left then right, are the input's bytes, each behind a header of
/// twelve bytes.
pub proof fn lemma_split_keeps_bytes(stem: Option<Seq<char>>, bytes: Seq<u8>)
    ensures
        split_spec(stem, bytes) matches Ok(out) ==> {
            &&& out.left.contents.len() == 12 + bytes.len() / 2
            &&& out.right.contents.len() == 12 + bytes.len() - bytes.len() / 2
            &&& out.left.contents.subrange(12, out.left.contents.len() as int)
                + out.right.contents.subrange(12, out.right.contents.len() as int) == bytes
        },
{
    if let Ok(out) = split_spec(stem, bytes) {
        lemma_halves_cover(bytes);
        let left = half_data(bytes, SplitHalf::Left);
        let right = half_data(bytes, SplitHalf::Right);
        lemma_header_fields_roundtrip(out.left.signature, left);
        lemma_header_fields_roundtrip(out.right.signature, right);
        assert(out.left.contents.subrange(12, out.left.contents.len() as int) =~= left);
        assert(out.right.contents.subrange(12, out.right.contents.len() as int) =~= right);
    }
}

/// A payload behind the header of its range.
pub fn frame(sig: &Signature, payload: &[u8]) -> (out: Vec<u8>)
    ensures
        out@ == header_bytes(*sig) + payload@,
{
    let header = sig.as_bytes();
    let mut out: Vec<u8> = Vec::new();
    let mut i: usize = 0;
    while i < 12
        invariant
            i <= 12,
            header@.len() == 12,
            out@ == header@.subrange(0, i as int),
        decreases 12 - i,
    {
        out.push(header[i]);
        assert(out@ =~= header@.subrange(0, i + 1));
        i = i + 1;
    }
    assert(out@ =~= header@);
    let mut j: usize = 0;
    while j < payload.len()
        invariant
            j <= payload@.len(),
            out@ == header@ + payload@.subrange(0, j as int),
        decreases payload@.len() - j,
    {
        out.push(payload[j]);
        assert(out@ =~= header@ + payload@.subrange(0, j + 1));
        j = j + 1;
    }
    assert(out@ =~= header@ + payload@);
    out
}

/// Splits a file in half.
///
/// `stem` is the stem of the file's name and `bytes` is what the file holds.
/// The result names the two files to write and gives their contents; it also
/// says which range the input carried, if it was itself a half. Nothing is to
/// be written on an error.
pub fn run(stem: Option<String>, bytes: Vec<u8>) -> (r: Result<SplitOutput, SplitError>)
    ensures
        match split_spec(stem_text(stem), bytes@) {
            Ok(output) => r matches Ok(out) && out@ == output,
            Err(error) => r matches Err(e) && e == error,
        },
{
    let mut split = SplitFile::new(stem, bytes);
    let found = match split.assign_ranges() {
        Ok(found) => found,
        Err(e) => {
            return Err(e);
        },
    };
    match split.save() {
        Ok((left, right)) => Ok(SplitOutput { found, left, right }),
        Err(e) => Err(e),
    }
}

} // verus!
