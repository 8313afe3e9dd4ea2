//! What a scan reads of an object file: the named section of the file, or
//! of each architecture of a Mach-O fat archive, as plain values.

use vstd::prelude::*;
use object::macho::FatHeader;
use object::read::macho::FatArch;
use object::{Object, ObjectSection};

verus! {

/// What a scan reads of one section of an object file.
pub struct SectionImage<'a> {
    /// The raw contents of the section, where they can be had.
    pub data: Option<&'a [u8]>,
    /// Where the contents begin in the file, where the section has any
    /// there.
    pub file_offset: Option<u64>,
    /// The address of the section.
    pub address: u64,
}

/// What a [`SectionImage`] is, mathematically.
pub struct SectionView {
    /// The raw contents of the section.
    pub data: Option<Seq<u8>>,
    /// Where the contents begin in the file.
    pub file_offset: Option<u64>,
    /// The address of the section.
    pub address: u64,
}

impl<'a> View for SectionImage<'a> {
    type V = SectionView;

    open spec fn view(&self) -> SectionView {
        SectionView {
            data: match self.data {
                Some(bytes) => Some(bytes@),
                None => None,
            },
            file_offset: self.file_offset,
            address: self.address,
        }
    }
}

/// What looking for a named section in a buffer gives.
pub enum SectionLookup<'a> {
    /// The buffer is not an object file.
    NotAnObject,
    /// The object file has no section of that name.
    Missing,
    /// The section.
    Found(SectionImage<'a>),
}

/// What a [`SectionLookup`] is, mathematically.
pub enum LookupView {
    /// The buffer is not an object file.
    NotAnObject,
    /// The object file has no section of that name.
    Missing,
    /// The section.
    Found(SectionView),
}

impl<'a> View for SectionLookup<'a> {
    type V = LookupView;

    open spec fn view(&self) -> LookupView {
        match self {
            SectionLookup::NotAnObject => LookupView::NotAnObject,
            SectionLookup::Missing => LookupView::Missing,
            SectionLookup::Found(section) => LookupView::Found(section@),
        }
    }
}

/// One architecture of a fat archive, as the archive lists it.
pub struct ArchiveSlice<'a> {
    /// The name of the architecture.
    pub architecture: String,
    /// Where the slice begins in the archive.
    pub offset: u32,
    /// The bytes of the slice, where the archive holds them.
    pub data: Option<&'a [u8]>,
}

/// What an [`ArchiveSlice`] is, mathematically.
pub struct SliceView {
    /// The name of the architecture.
    pub architecture: Seq<char>,
    /// Where the slice begins in the archive.
    pub offset: u32,
    /// The bytes of the slice.
    pub data: Option<Seq<u8>>,
}

impl<'a> View for ArchiveSlice<'a> {
    type V = SliceView;

    open spec fn view(&self) -> SliceView {
        SliceView {
            architecture: self.architecture@,
            offset: self.offset,
            data: match self.data {
                Some(bytes) => Some(bytes@),
                None => None,
            },
        }
    }
}

/// The views of a list of slices.
pub open spec fn slice_views(slices: Seq<ArchiveSlice<'_>>) -> Seq<SliceView> {
    Seq::new(slices.len(), |i: int| slices[i]@)
}

/// One architecture of a fat archive, with what looking for the named
/// section in it gave.
pub struct SliceImage<'a> {
    /// The name of the architecture.
    pub architecture: String,
    /// Where the slice begins in the archive.
    pub offset: u32,
    /// What looking for the section in the slice gave; `None` where the
    /// archive does not hold the bytes of the slice.
    pub lookup: Option<SectionLookup<'a>>,
}

/// What a scan reads of a buffer.
pub enum ObjectImage<'a> {
    /// The buffer is an object file; its section of the name asked for,
    /// if it has one.
    Object(Option<SectionImage<'a>>),
    /// The buffer is a fat archive of these architectures.
    Archive(Vec<SliceImage<'a>>),
    /// The buffer is neither.
    Neither,
}

/// What the `object` crate finds when it parses `data` as an object file
/// and looks for the section named `section_name`.
pub uninterp spec fn section_lookup(data: Seq<u8>, section_name: Seq<char>) -> LookupView;

/// The architectures that the `object` crate finds when it parses `data`
/// as a 32-bit Mach-O fat archive; `None` where it is none.
pub uninterp spec fn archive_slices(data: Seq<u8>) -> Option<Seq<SliceView>>;

/// Parses `data` with `object::File::parse`, looks the section up with
/// `Object::section_by_name`, and reads it with `ObjectSection::data`,
/// `file_range` and `address`. All of these depend on the bytes and the
/// name alone; what they give is named [`section_lookup`], and nothing
/// more is claimed of it.
#[verifier::external_body]
pub(crate) fn read_section<'a>(data: &'a [u8], section_name: &str) -> (lookup: SectionLookup<'a>)
    ensures
        lookup@ == section_lookup(data@, section_name@),
{
    match object::File::parse(data) {
        Err(_) => SectionLookup::NotAnObject,
        Ok(file) => match file.section_by_name(section_name) {
            None => SectionLookup::Missing,
            Some(section) => SectionLookup::Found(
                SectionImage {
                    data: section.data().ok(),
                    file_offset: section.file_range().map(|range| range.0),
                    address: section.address(),
                },
            ),
        },
    }
}

/// Parses `data` with `FatHeader::parse_arch32` and reads each
/// architecture with `FatArch::architecture` (by its `Debug` name),
/// `offset` and `data`. All of these depend on the bytes alone; what they
/// give is named [`archive_slices`], and nothing more is claimed of it.
#[verifier::external_body]
pub(crate) fn read_archive<'a>(data: &'a [u8]) -> (slices: Option<Vec<ArchiveSlice<'a>>>)
    ensures
        match slices {
            Some(list) => archive_slices(data@) == Some(slice_views(list@)),
            None => archive_slices(data@) is None,
        },
{
    match FatHeader::parse_arch32(data) {
        Err(_) => None,
        Ok(arches) => Some(
            arches.iter().map(
                |arch| ArchiveSlice {
                    architecture: format!("{:#?}", arch.architecture()),
                    offset: arch.offset(),
                    data: arch.data(data).ok(),
                },
            ).collect(),
        ),
    }
}

/// The slice image is what the `object` crate reads of a slice that a
/// fat archive lists.
pub open spec fn slice_describes(
    image: SliceImage<'_>,
    slice: SliceView,
    section_name: Seq<char>,
) -> bool {
    &&& image.architecture@ == slice.architecture
    &&& image.offset == slice.offset
    &&& match image.lookup {
        None => slice.data is None,
        Some(lookup) => slice.data is Some && lookup@ == section_lookup(
            slice.data->0,
            section_name,
        ),
    }
}

/// The image is what the `object` crate reads of `data` when the section
/// named `section_name` is looked for: the section of an object file;
/// else the architectures of a fat archive, each with its section; else
/// nothing.
pub open spec fn describes(image: ObjectImage<'_>, data: Seq<u8>, section_name: Seq<char>) -> bool {
    match image {
        ObjectImage::Object(Some(section)) => section_lookup(data, section_name)
            == LookupView::Found(section@),
        ObjectImage::Object(None) => section_lookup(data, section_name) == LookupView::Missing,
        ObjectImage::Archive(slices) => {
            &&& section_lookup(data, section_name) == LookupView::NotAnObject
            &&& archive_slices(data) matches Some(listed)
            &&& listed.len() == slices@.len()
            &&& forall|at: int|
                0 <= at < slices@.len() ==> #[trigger] slice_describes(
                    slices@[at],
                    listed[at],
                    section_name,
                )
        },
        ObjectImage::Neither => {
            &&& section_lookup(data, section_name) == LookupView::NotAnObject
            &&& archive_slices(data) is None
        },
    }
}

/// Reads of a buffer what a scan of its section named `section_name`
/// needs: the buffer is tried as an object file first, then as a fat
/// archive, whose architectures are each tried as an object file.
pub fn read_object<'a>(data: &'a [u8], section_name: &str) -> (image: ObjectImage<'a>)
    ensures
        describes(image, data@, section_name@),
{
    match read_section(data, section_name) {
        SectionLookup::Found(section) => ObjectImage::Object(Some(section)),
        SectionLookup::Missing => ObjectImage::Object(None),
        SectionLookup::NotAnObject => match read_archive(data) {
            None => ObjectImage::Neither,
            Some(listed) => {
                let mut slices: Vec<SliceImage<'a>> = Vec::new();
                let mut i: usize = 0;
                while i < listed.len()
                    invariant
                        i <= listed@.len(),
                        slices@.len() == i,
                        forall|at: int|
                            0 <= at < i ==> #[trigger] slice_describes(
                                slices@[at],
                                listed@[at]@,
                                section_name@,
                            ),
                    decreases listed@.len() - i,
                {
                    let slice = &listed[i];
                    let lookup = match slice.data {
                        Some(bytes) => Some(read_section(bytes, section_name)),
                        None => None,
                    };
                    slices.push(
                        SliceImage {
                            architecture: slice.architecture.clone(),
                            offset: slice.offset,
                            lookup,
                        },
                    );
                    i += 1;
                }
                assert forall|at: int| 0 <= at < slices@.len() implies #[trigger] slice_describes(
                    slices@[at],
                    slice_views(listed@)[at],
                    section_name@,
                ) by {
                    assert(slice_describes(slices@[at], listed@[at]@, section_name@));
                }
                ObjectImage::Archive(slices)
            },
        },
    }
}

} // verus!
