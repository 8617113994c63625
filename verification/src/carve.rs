//! The extent and the file name of a container that the scan found by its
//! signature.

use vstd::prelude::*;

use crate::cursor::{
    read_u16_be, read_u32_be, read_u32_le, read_u64_be, spec_read_u16_be, spec_read_u32_be,
    spec_read_u32_le, spec_read_u64_be,
};
use crate::errors::DiskError;
use crate::text::{numbered, spec_numbered, spec_utf16_text, utf16_string};

verus! {

/// Where the display name of a package starts, from its signature on.
pub const STFS_NAME_OFFSET: u64 = 0x411;

/// The most UTF-16 code units a display name has.
pub const STFS_NAME_MAX_UNITS: usize = 0x208;

/// Where the content size of a package lies, from its signature on.
pub const STFS_SIZE_OFFSET: u64 = 0x34C;

/// Where the search for the content of a package starts, from its signature
/// on.
pub const STFS_CONTENT_SEARCH_OFFSET: u64 = 0x37E;

/// Where the body length of a video file lies, from its signature on.
pub const BINK_LENGTH_OFFSET: u64 = 0x04;

/// Bytes of a video file that are no part of its body: the signature and
/// the length.
pub const BINK_HEADER_LEN: u64 = 0x08;

/// A file to be written, as the contracts see it.
pub struct CarvedFileView {
    pub name: Seq<char>,
    pub start: int,
    pub end: int,
}

/// A file to be written: its name, and where its bytes start and end in the
/// image.
#[derive(Debug, Clone)]
pub struct CarvedFile {
    pub name: String,
    pub start: u64,
    pub end: u64,
}

impl View for CarvedFile {
    type V = CarvedFileView;

    open spec fn view(&self) -> CarvedFileView {
        CarvedFileView { name: self.name@, start: self.start as int, end: self.end as int }
    }
}

/// How many files the carver has named by number.
pub struct CarverView {
    pub stfs_files: nat,
    pub video_files: nat,
}

/// What a step of the carver gives: a file to write, nothing, or an error;
/// and the carver's counters after the step.
pub struct CarveStep {
    pub outcome: Result<Option<CarvedFileView>, DiskError>,
    pub after: CarverView,
}

/// What a carving function returned, as the contracts see it.
pub open spec fn spec_carved(r: Result<Option<CarvedFile>, DiskError>) -> Result<
    Option<CarvedFileView>,
    DiskError,
> {
    match r {
        Ok(Some(file)) => Ok(Some(file@)),
        Ok(None) => Ok(None),
        Err(e) => Err(e),
    }
}

/// Code units with `prefix` put before them; an error stays what it is.
pub open spec fn spec_units_prepend(prefix: Seq<u16>, rest: Result<Seq<u16>, DiskError>) -> Result<
    Seq<u16>,
    DiskError,
> {
    match rest {
        Ok(units) => Ok(prefix + units),
        Err(e) => Err(e),
    }
}

/// The big-endian code units from `pos` on, up to the first that is zero and
/// `budget` at most.
pub open spec fn spec_name_units(image: Seq<u8>, pos: int, budget: nat) -> Result<
    Seq<u16>,
    DiskError,
>
    decreases budget,
{
    if budget == 0 {
        Ok(Seq::empty())
    } else {
        match spec_read_u16_be(image, pos) {
            Err(e) => Err(e),
            Ok(unit) => if unit == 0 {
                Ok(Seq::empty())
            } else {
                spec_units_prepend(seq![unit], spec_name_units(image, pos + 2, (budget - 1) as nat))
            },
        }
    }
}

/// The code units of the display name of the package at `offset`.
pub open spec fn spec_stfs_name_units(image: Seq<u8>, offset: int) -> Result<Seq<u16>, DiskError> {
    spec_name_units(image, offset + STFS_NAME_OFFSET, STFS_NAME_MAX_UNITS as nat)
}

/// The position of the first big-endian word that is not zero, among those
/// at `pos`, `pos + 4`, `pos + 8` and so on. Running out of the image is an
/// error.
pub open spec fn spec_first_nonzero_word(image: Seq<u8>, pos: int) -> Result<int, DiskError>
    decreases image.len() - pos,
{
    match spec_read_u32_be(image, pos) {
        Err(e) => Err(e),
        Ok(word) => if word != 0 {
            Ok(pos)
        } else {
            spec_first_nonzero_word(image, pos + 4)
        },
    }
}

/// Where the content of the package at `offset` starts: four bytes before
/// the first word that is not zero, searched from `STFS_CONTENT_SEARCH_OFFSET`
/// on.
pub open spec fn spec_stfs_content_start(image: Seq<u8>, offset: int) -> Result<int, DiskError> {
    match spec_first_nonzero_word(image, offset + STFS_CONTENT_SEARCH_OFFSET) {
        Err(e) => Err(e),
        Ok(word) => Ok(word - 4),
    }
}

/// Where the package at `offset` ends: where its content starts, plus the
/// content's size. `None` where that lies past the end of the image.
pub open spec fn spec_stfs_end(image: Seq<u8>, offset: int) -> Result<Option<int>, DiskError> {
    match spec_read_u64_be(image, offset + STFS_SIZE_OFFSET) {
        Err(e) => Err(e),
        Ok(size) => match spec_stfs_content_start(image, offset) {
            Err(e) => Err(e),
            Ok(start) => if start + size > image.len() {
                Ok(None)
            } else {
                Ok(Some(start + size))
            },
        },
    }
}

/// The name of the `n`-th package that has no display name.
pub open spec fn spec_unnamed_stfs(n: nat) -> Seq<char> {
    spec_numbered("unnamed_stfs_package_"@, n, ""@)
}

/// The name of video file number `n`.
pub open spec fn spec_video_name(n: nat) -> Seq<char> {
    spec_numbered("video_file_"@, n, ".bik"@)
}

/// Carving the package at `offset`, whose display name decoded to
/// `display_name`. A package whose name is no text, or that would end past
/// the image, is passed over. A package without a name is numbered, from 1
/// on.
pub open spec fn spec_carve_stfs(
    image: Seq<u8>,
    offset: int,
    display_name: Option<Seq<char>>,
    before: CarverView,
) -> CarveStep {
    match display_name {
        None => CarveStep { outcome: Ok(None), after: before },
        Some(name) => match spec_stfs_end(image, offset) {
            Err(e) => CarveStep { outcome: Err(e), after: before },
            Ok(None) => CarveStep { outcome: Ok(None), after: before },
            Ok(Some(end)) => if name.len() == 0 {
                CarveStep {
                    outcome: Ok(
                        Some(
                            CarvedFileView {
                                name: spec_unnamed_stfs(before.stfs_files + 1),
                                start: offset,
                                end,
                            },
                        ),
                    ),
                    after: CarverView { stfs_files: before.stfs_files + 1, ..before },
                }
            } else {
                CarveStep {
                    outcome: Ok(Some(CarvedFileView { name, start: offset, end })),
                    after: before,
                }
            },
        },
    }
}

/// Carving the video file at `offset`: its signature, its length, and as
/// many bytes of body as the length says. A file that would end past the
/// image is passed over. Video files are numbered, from 0 on.
pub open spec fn spec_carve_bink(image: Seq<u8>, offset: int, before: CarverView) -> CarveStep {
    match spec_read_u32_le(image, offset + BINK_LENGTH_OFFSET) {
        Err(e) => CarveStep { outcome: Err(e), after: before },
        Ok(body) => if offset + BINK_HEADER_LEN + body > image.len() {
            CarveStep { outcome: Ok(None), after: before }
        } else {
            CarveStep {
                outcome: Ok(
                    Some(
                        CarvedFileView {
                            name: spec_video_name(before.video_files),
                            start: offset,
                            end: offset + BINK_HEADER_LEN + body,
                        },
                    ),
                ),
                after: CarverView { video_files: before.video_files + 1, ..before },
            }
        },
    }
}

/// Reads the code units of the display name of the package at `offset`.
pub fn stfs_name_units(data: &[u8], offset: u64) -> (r: Result<Vec<u16>, DiskError>)
    ensures
        match r {
            Ok(units) => spec_stfs_name_units(data@, offset as int) == Ok::<Seq<u16>, DiskError>(
                units@,
            ),
            Err(e) => spec_stfs_name_units(data@, offset as int) == Err::<Seq<u16>, DiskError>(e),
        },
{
    let mut units: Vec<u16> = Vec::new();
    let ghost first = offset + STFS_NAME_OFFSET;
    proof {
        let whole = spec_name_units(data@, first, STFS_NAME_MAX_UNITS as nat);
        if whole is Ok {
            assert(units@ + whole.unwrap() =~= whole.unwrap());
        }
    }
    while units.len() < STFS_NAME_MAX_UNITS
        invariant
            first == offset + STFS_NAME_OFFSET,
            units@.len() <= STFS_NAME_MAX_UNITS,
            spec_stfs_name_units(data@, offset as int) == spec_units_prepend(
                units@,
                spec_name_units(
                    data@,
                    first + 2 * units@.len(),
                    (STFS_NAME_MAX_UNITS - units@.len()) as nat,
                ),
            ),
        decreases STFS_NAME_MAX_UNITS - units@.len(),
    {
        let within: u64 = STFS_NAME_OFFSET + 2 * (units.len() as u64);
        let pos: u64 = match offset.checked_add(within) {
            Some(pos) => pos,
            None => {
                assert(data@.len() == data.len());
                return Err(DiskError::unexpected_eof());
            },
        };
        let unit: u16 = match read_u16_be(data, pos) {
            Ok(unit) => unit,
            Err(e) => {
                return Err(e);
            },
        };
        if unit == 0 {
            proof {
                assert(units@ + Seq::<u16>::empty() =~= units@);
            }
            return Ok(units);
        }
        proof {
            let rest = spec_name_units(
                data@,
                pos + 2,
                (STFS_NAME_MAX_UNITS - units@.len() - 1) as nat,
            );
            if rest is Ok {
                assert(units@.push(unit) + rest.unwrap() =~= units@ + (seq![unit] + rest.unwrap()));
            }
        }
        units.push(unit);
    }
    proof {
        assert(units@ + Seq::<u16>::empty() =~= units@);
    }
    Ok(units)
}

/// Finds the first big-endian word that is not zero, among those at `pos`,
/// `pos + 4`, `pos + 8` and so on.
pub fn first_nonzero_word(data: &[u8], pos: u64) -> (r: Result<u64, DiskError>)
    ensures
        match r {
            Ok(found) => spec_first_nonzero_word(data@, pos as int) == Ok::<int, DiskError>(
                found as int,
            ),
            Err(e) => spec_first_nonzero_word(data@, pos as int) == Err::<int, DiskError>(e),
        },
        r matches Ok(found) ==> pos <= found,
{
    let mut at: u64 = pos;
    loop
        invariant
            pos <= at,
            spec_first_nonzero_word(data@, pos as int) == spec_first_nonzero_word(
                data@,
                at as int,
            ),
        decreases data@.len() - at,
    {
        match read_u32_be(data, at) {
            Err(e) => {
                return Err(e);
            },
            Ok(word) => {
                if word != 0 {
                    return Ok(at);
                }
            },
        }
        assert(data@.len() == data.len());
        at += 4;
    }
}

/// Where the package at `offset` ends, or `None` where that lies past the
/// end of the image.
pub fn stfs_end(data: &[u8], offset: u64) -> (r: Result<Option<u64>, DiskError>)
    ensures
        match r {
            Ok(Some(end)) => spec_stfs_end(data@, offset as int) == Ok::<Option<int>, DiskError>(
                Some(end as int),
            ),
            Ok(None) => spec_stfs_end(data@, offset as int) == Ok::<Option<int>, DiskError>(None),
            Err(e) => spec_stfs_end(data@, offset as int) == Err::<Option<int>, DiskError>(e),
        },
        r matches Ok(Some(end)) ==> offset <= end <= data@.len(),
{
    assert(data@.len() == data.len());
    let size_pos: u64 = match offset.checked_add(STFS_SIZE_OFFSET) {
        Some(pos) => pos,
        None => {
            return Err(DiskError::unexpected_eof());
        },
    };
    let size: u64 = match read_u64_be(data, size_pos) {
        Ok(size) => size,
        Err(e) => {
            return Err(e);
        },
    };
    let search_pos: u64 = match offset.checked_add(STFS_CONTENT_SEARCH_OFFSET) {
        Some(pos) => pos,
        None => {
            return Err(DiskError::unexpected_eof());
        },
    };
    let start: u64 = match first_nonzero_word(data, search_pos) {
        Ok(word) => word - 4,
        Err(e) => {
            return Err(e);
        },
    };
    match start.checked_add(size) {
        Some(end) => if end > data.len() as u64 {
            Ok(None)
        } else {
            Ok(Some(end))
        },
        None => Ok(None),
    }
}

/// Names the files that are carved and counts those it numbers.
pub struct Carver {
    stfs_files: u64,
    video_files: u64,
}

impl View for Carver {
    type V = CarverView;

    closed spec fn view(&self) -> CarverView {
        CarverView { stfs_files: self.stfs_files as nat, video_files: self.video_files as nat }
    }
}

impl Carver {
    /// A carver that has numbered no file yet.
    pub fn new() -> (carver: Carver)
        ensures
            carver@ == (CarverView { stfs_files: 0, video_files: 0 }),
    {
        Carver { stfs_files: 0, video_files: 0 }
    }

    /// Whether the carver can number one more file of each kind.
    pub fn has_room(&self) -> (ok: bool)
        ensures
            ok == (self@.stfs_files < u64::MAX && self@.video_files < u64::MAX),
    {
        self.stfs_files < u64::MAX && self.video_files < u64::MAX
    }

    /// Carves the package whose signature stands at `offset`, given what its
    /// display name decoded to.
    pub fn carve_stfs_named(&mut self, data: &[u8], offset: u64, display_name: Option<String>) -> (r:
        Result<Option<CarvedFile>, DiskError>)
        requires
            old(self)@.stfs_files < u64::MAX,
        ensures
            spec_carved(r) == spec_carve_stfs(
                data@,
                offset as int,
                match display_name {
                    Some(name) => Some(name@),
                    None => None,
                },
                old(self)@,
            ).outcome,
            final(self)@ == spec_carve_stfs(
                data@,
                offset as int,
                match display_name {
                    Some(name) => Some(name@),
                    None => None,
                },
                old(self)@,
            ).after,
            r matches Ok(Some(file)) ==> file.start == offset && offset <= file.end
                <= data@.len(),
    {
        let name: String = match display_name {
            Some(name) => name,
            None => {
                return Ok(None);
            },
        };
        let end: u64 = match stfs_end(data, offset) {
            Ok(Some(end)) => end,
            Ok(None) => {
                return Ok(None);
            },
            Err(e) => {
                return Err(e);
            },
        };
        if name.as_str().unicode_len() == 0 {
            self.stfs_files = self.stfs_files + 1;
            let numbered_name: String = numbered("unnamed_stfs_package_", self.stfs_files, "");
            Ok(Some(CarvedFile { name: numbered_name, start: offset, end }))
        } else {
            Ok(Some(CarvedFile { name, start: offset, end }))
        }
    }

    /// Carves the package whose signature stands at `offset`. Its display
    /// name is read from the image and decoded as UTF-16.
    pub fn carve_stfs(&mut self, data: &[u8], offset: u64) -> (r: Result<
        Option<CarvedFile>,
        DiskError,
    >)
        requires
            old(self)@.stfs_files < u64::MAX,
        ensures
            match spec_stfs_name_units(data@, offset as int) {
                Err(e) => r == Err::<Option<CarvedFile>, DiskError>(e) && final(self)@ == old(
                    self,
                )@,
                Ok(units) => spec_carved(r) == spec_carve_stfs(
                    data@,
                    offset as int,
                    spec_utf16_text(units),
                    old(self)@,
                ).outcome && final(self)@ == spec_carve_stfs(
                    data@,
                    offset as int,
                    spec_utf16_text(units),
                    old(self)@,
                ).after,
            },
            r matches Ok(Some(file)) ==> file.start == offset && offset <= file.end
                <= data@.len(),
    {
        let units: Vec<u16> = match stfs_name_units(data, offset) {
            Ok(units) => units,
            Err(e) => {
                return Err(e);
            },
        };
        let display_name: Option<String> = utf16_string(units.as_slice());
        self.carve_stfs_named(data, offset, display_name)
    }

    /// Carves the video file whose signature stands at `offset`.
    pub fn carve_bink(&mut self, data: &[u8], offset: u64) -> (r: Result<
        Option<CarvedFile>,
        DiskError,
    >)
        requires
            old(self)@.video_files < u64::MAX,
        ensures
            spec_carved(r) == spec_carve_bink(data@, offset as int, old(self)@).outcome,
            final(self)@ == spec_carve_bink(data@, offset as int, old(self)@).after,
            r matches Ok(Some(file)) ==> file.start == offset && offset <= file.end
                <= data@.len(),
    {
        assert(data@.len() == data.len());
        let length_pos: u64 = match offset.checked_add(BINK_LENGTH_OFFSET) {
            Some(pos) => pos,
            None => {
                return Err(DiskError::unexpected_eof());
            },
        };
        let body: u32 = match read_u32_le(data, length_pos) {
            Ok(body) => body,
            Err(e) => {
                return Err(e);
            },
        };
        let end: u64 = match (offset + BINK_HEADER_LEN).checked_add(body as u64) {
            Some(end) => end,
            None => {
                return Ok(None);
            },
        };
        if end > data.len() as u64 {
            return Ok(None);
        }
        let name: String = numbered("video_file_", self.video_files, ".bik");
        self.video_files = self.video_files + 1;
        Ok(Some(CarvedFile { name, start: offset, end }))
    }
}

} // verus!
