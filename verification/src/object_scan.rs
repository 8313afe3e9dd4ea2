//! Scanning one named section of an object file, or of every architecture
//! of a Mach-O fat archive.

use vstd::prelude::*;
use crate::object_image::{
    describes, read_object, ObjectImage, SectionImage, SectionLookup, SectionView, SliceImage,
};
use crate::pattern::{
    chunk_bytes, chunk_origin, chunk_trace, partition_trace, scan_trace, Pattern, PatternView,
};
use crate::sink::{handed_since, MatchSink};

verus! {

/// Where a match was found in a section of an object file.
#[derive(Debug, Clone, PartialEq, Eq)]
pub struct SectionResult {
    /// The offset of the match in the whole buffer.
    pub raw_offset: usize,
    /// The offset of the match in the section.
    pub section_offset: usize,
    /// The base address of the section.
    pub section_address: u64,
    /// The architecture of the slice of a fat archive that holds the
    /// match; `None` for an object file that is no archive.
    pub archive_id: Option<String>,
}

/// Why the section of an object file could not be scanned.
#[derive(Debug, Clone, PartialEq, Eq)]
pub enum ObjectError {
    /// The buffer is not an object file.
    InvalidObject,
    /// No section has the name that was asked for.
    SectionNotFound,
    /// The section is there but its data cannot be had.
    SectionDataNotFound,
}

impl ObjectError {
    /// A description of the error for a reader.
    pub fn message(&self) -> (text: String)
        ensures
            self is InvalidObject ==> text@
                == "the content of the data to scan is not a valid object file"@,
            self is SectionNotFound ==> text@ == "the specified binary section is not found"@,
            self is SectionDataNotFound ==> text@
                == "the data of the specified binary section is not available"@,
    {
        match self {
            ObjectError::InvalidObject => {
                "the content of the data to scan is not a valid object file".to_string()
            },
            ObjectError::SectionNotFound => "the specified binary section is not found".to_string(),
            ObjectError::SectionDataNotFound => {
                "the data of the specified binary section is not available".to_string()
            },
        }
    }
}

/// Where the section begins in the whole buffer, when the slice that
/// holds it begins at `archive_offset`: `None` where the section has no
/// contents in the file, or where they would reach past what `usize`
/// holds.
pub open spec fn section_base(section: SectionView, archive_offset: int) -> Option<int> {
    if section.data is Some && section.file_offset is Some && archive_offset
        + section.file_offset->0 + section.data->0.len() <= usize::MAX {
        Some(archive_offset + section.file_offset->0)
    } else {
        None
    }
}

/// What the callback is handed for the match at `offset` of a section.
pub open spec fn section_result(
    section: SectionView,
    archive_id: Option<String>,
    archive_offset: int,
    offset: usize,
) -> SectionResult {
    SectionResult {
        raw_offset: (section_base(section, archive_offset)->0 + offset) as usize,
        section_offset: offset,
        section_address: section.address,
        archive_id,
    }
}

/// The sink that hands each match of a section to a callback, together
/// with where the section lies.
pub struct SectionSink<F> {
    /// The callback.
    pub callback: F,
    /// Where the section begins in the whole buffer.
    pub base: usize,
    /// The address of the section.
    pub address: u64,
    /// The architecture of the slice that holds the section.
    pub archive_id: Option<String>,
    /// The offsets in their sections of the matches that the callback was
    /// handed.
    pub handed: Ghost<Seq<usize>>,
}

impl<F> SectionSink<F> {
    /// What the callback is handed for the match at `offset`.
    pub open spec fn result(&self, offset: usize) -> SectionResult {
        SectionResult {
            raw_offset: (self.base + offset) as usize,
            section_offset: offset,
            section_address: self.address,
            archive_id: self.archive_id,
        }
    }

    /// The sink over `callback` for a section in a slice that begins at
    /// `archive_offset`, which has been handed nothing yet.
    pub open spec fn over(
        callback: F,
        section: SectionView,
        archive_id: Option<String>,
        archive_offset: int,
    ) -> SectionSink<F> {
        SectionSink {
            callback,
            base: section_base(section, archive_offset)->0 as usize,
            address: section.address,
            archive_id,
            handed: Ghost(Seq::empty()),
        }
    }

    /// A sink over `callback`, for a section at the start of the buffer.
    pub fn new(callback: F) -> (sink: SectionSink<F>)
        ensures
            sink.callback == callback,
            sink.base == 0,
            sink.address == 0,
            sink.archive_id is None,
            sink.handed@ == Seq::<usize>::empty(),
    {
        SectionSink { callback, base: 0, address: 0, archive_id: None, handed: Ghost(Seq::empty()) }
    }
}

/// What a section sink accepts and answers is what its callback does with
/// the place of the match; it never halts a scan.
pub proof fn lemma_section_sink<F: FnMut(SectionResult) -> bool>(sink: SectionSink<F>)
    ensures
        forall|offset: usize| #[trigger]
            sink.accepts(offset) == (sink.base + offset <= usize::MAX && call_requires(
                sink.callback,
                (sink.result(offset),),
            )),
        forall|offset: usize, keep: bool| #[trigger]
            sink.answers(offset, keep) == call_ensures(sink.callback, (sink.result(offset),), keep),
        sink.handed() == sink.handed@,
        sink.halts() == 0,
{
}

impl<F: FnMut(SectionResult) -> bool> MatchSink for SectionSink<F> {
    open spec fn accepts(&self, offset: usize) -> bool {
        self.base + offset <= usize::MAX && call_requires(self.callback, (self.result(offset),))
    }

    open spec fn answers(&self, offset: usize, keep: bool) -> bool {
        call_ensures(self.callback, (self.result(offset),), keep)
    }

    open spec fn handed(&self) -> Seq<usize> {
        self.handed@
    }

    open spec fn blank(&self) -> Self {
        SectionSink {
            callback: self.callback,
            base: self.base,
            address: self.address,
            archive_id: self.archive_id,
            handed: Ghost(Seq::empty()),
        }
    }

    open spec fn halts(&self) -> nat {
        0
    }

    fn halted(&mut self) -> (halt: bool) {
        false
    }

    fn report(&mut self, offset: usize) -> (keep: bool) {
        let archive_id = match &self.archive_id {
            Some(name) => Some(name.clone()),
            None => None,
        };
        let result = SectionResult {
            raw_offset: self.base + offset,
            section_offset: offset,
            section_address: self.address,
            archive_id,
        };
        let keep = (self.callback)(result);
        self.handed = Ghost(self.handed@.push(offset));
        keep
    }
}

/// The callback answered `false` at a match of the section.
pub open spec fn section_stopped<F: FnMut(SectionResult) -> bool>(
    view: PatternView,
    section: SectionView,
    archive_id: Option<String>,
    archive_offset: int,
    callback: F,
) -> bool {
    exists|stop: usize| #[trigger]
        view.reports(section.data->0, stop as int) && call_ensures(
            callback,
            (section_result(section, archive_id, archive_offset, stop),),
            false,
        )
}

/// Every match of the section was handed to the callback, unless it
/// answered `false` at one of them.
pub open spec fn section_visited<F: FnMut(SectionResult) -> bool>(
    view: PatternView,
    section: SectionView,
    archive_id: Option<String>,
    archive_offset: int,
    callback: F,
) -> bool {
    forall|offset: usize| #[trigger]
        view.reports(section.data->0, offset as int) ==> call_ensures(
            callback,
            (section_result(section, archive_id, archive_offset, offset),),
            true,
        ) || section_stopped(view, section, archive_id, archive_offset, callback)
}

/// What the scan of a section gives: `SectionDataNotFound` where its
/// contents have no place in the buffer, else whether they hold a match.
pub open spec fn section_outcome(
    view: PatternView,
    section: SectionView,
    archive_offset: int,
    result: Result<bool, ObjectError>,
) -> bool {
    match result {
        Ok(found) => {
            &&& section_base(section, archive_offset) is Some
            &&& found <==> exists|offset: usize| #[trigger] view.reports(section.data->0, offset as int)
        },
        Err(ObjectError::SectionDataNotFound) => section_base(section, archive_offset) is None,
        Err(_) => false,
    }
}

/// Scans the contents of one section, which lies in a slice that begins
/// at `archive_offset` in the whole buffer, and hands each match to the
/// callback of `sink`, until it answers `false`. A section without
/// contents in the file, or whose contents would lie past what `usize`
/// holds, gives `SectionDataNotFound`, and the callback is left alone.
pub fn scan_section<F: FnMut(SectionResult) -> bool>(
    pattern: &Pattern,
    section: &SectionImage,
    archive_id: Option<String>,
    archive_offset: usize,
    sink: &mut SectionSink<F>,
) -> (result: Result<bool, ObjectError>)
    requires
        forall|found: SectionResult| call_requires(old(sink).callback, (found,)),
    ensures
        final(sink).callback == old(sink).callback,
        final(sink).handed() == old(sink).handed() + handed_since(
            old(sink).handed(),
            final(sink).handed(),
        ),
        section_outcome(pattern@, section@, archive_offset as int, result),
        result is Err ==> final(sink).handed() == old(sink).handed(),
        result is Ok ==> scan_trace(
            pattern@,
            section@.data->0,
            SectionSink::over(old(sink).callback, section@, archive_id, archive_offset as int),
            handed_since(old(sink).handed(), final(sink).handed()),
        ),
        result is Ok ==> exists|parts: Seq<Seq<usize>>, stopped: bool| #[trigger]
            partition_trace(
                pattern@,
                section@.data->0,
                SectionSink::over(old(sink).callback, section@, archive_id, archive_offset as int),
                parts,
                stopped,
            ) && handed_since(old(sink).handed(), final(sink).handed()) == parts.flatten(),
        result is Ok ==> section_visited(
            pattern@,
            section@,
            archive_id,
            archive_offset as int,
            old(sink).callback,
        ),
{
    let ghost base = sink.handed();
    assert(base + base.skip(base.len() as int) =~= base);
    let data = match section.data {
        Some(data) => data,
        None => {
            return Err(ObjectError::SectionDataNotFound);
        },
    };
    let file_offset = match section.file_offset {
        Some(file_offset) => file_offset,
        None => {
            return Err(ObjectError::SectionDataNotFound);
        },
    };
    let room = usize::MAX - archive_offset;
    if data.len() > room || file_offset > (room - data.len()) as u64 {
        return Err(ObjectError::SectionDataNotFound);
    }
    sink.base = archive_offset + file_offset as usize;
    sink.address = section.address;
    sink.archive_id = archive_id;
    let ghost view = pattern@;
    let ghost bytes = data@;
    let ghost ready = *sink;
    let ghost fresh = SectionSink::over(
        old(sink).callback,
        section@,
        archive_id,
        archive_offset as int,
    );
    assert forall|offset: usize| #[trigger] view.reports(bytes, offset as int) implies sink.accepts(
        offset,
    ) by {
        assert(offset <= bytes.len());
    }
    let found = pattern.scan_into(data, sink);
    proof {
        let trace = handed_since(base, sink.handed());
        assert forall|offset: usize, keep: bool| #[trigger]
            ready.answers(offset, keep) == fresh.answers(offset, keep) by {
            assert(ready.result(offset) == fresh.result(offset));
        }
        assert forall|offset: usize| fresh.result(offset) == section_result(
            section@,
            archive_id,
            archive_offset as int,
            offset,
        ) || !#[trigger] view.reports(bytes, offset as int) by {
            if view.reports(bytes, offset as int) {
                assert(offset <= bytes.len());
            }
        }
        assert(scan_trace(view, bytes, ready, trace));
        assert forall|at: int| 0 <= at < trace.len() - 1 implies fresh.answers(
            #[trigger] trace[at],
            true,
        ) by {
            assert(ready.answers(trace[at], true));
        }
        if trace.len() > 0 {
            assert(ready.answers(trace.last(), true) || ready.answers(trace.last(), false));
            assert(view.reports(bytes, trace[trace.len() - 1] as int));
        }
        assert(scan_trace(view, bytes, fresh, trace));
        let (parts, stopped) = choose|parts: Seq<Seq<usize>>, stopped: bool| #[trigger]
            partition_trace(view, bytes, ready, parts, stopped) && trace == parts.flatten();
        assert forall|index: int| 0 <= index < parts.len() implies chunk_trace(
            view,
            chunk_bytes(view, bytes, index),
            chunk_origin(view, bytes.len() as int, index),
            fresh,
            #[trigger] parts[index],
            stopped && index == parts.len() - 1,
        ) by {
            let part = parts[index];
            let last = stopped && index == parts.len() - 1;
            assert(chunk_trace(
                view,
                chunk_bytes(view, bytes, index),
                chunk_origin(view, bytes.len() as int, index),
                ready,
                part,
                last,
            ));
            assert forall|at: int| 0 <= at < part.len() implies fresh.answers(
                #[trigger] part[at],
                !(last && at == part.len() - 1),
            ) by {
                assert(ready.answers(part[at], !(last && at == part.len() - 1)));
            }
        }
        assert(partition_trace(view, bytes, fresh, parts, stopped));
        assert forall|offset: usize| #[trigger] view.reports(bytes, offset as int) implies call_ensures(
            old(sink).callback,
            (section_result(section@, archive_id, archive_offset as int, offset),),
            true,
        ) || section_stopped(view, section@, archive_id, archive_offset as int, old(sink).callback) by {
            if trace.len() > 0 && fresh.answers(trace.last(), false) {
                assert(view.reports(bytes, trace.last() as int));
            } else {
                let at = choose|at: int| 0 <= at < trace.len() && trace[at] == offset;
                if at < trace.len() - 1 {
                    assert(fresh.answers(trace[at], true));
                }
            }
        }
    }
    Ok(found)
}

/// The section of a slice of an archive, where the slice has it.
pub open spec fn slice_section(slice: SliceImage<'_>) -> Option<SectionView> {
    match slice.lookup {
        Some(SectionLookup::Found(section)) => Some(section@),
        _ => None,
    }
}

/// The error that stops the scan of an archive at one of its slices: the
/// slice is no object file, or the contents of its section have no place
/// in the buffer.
pub open spec fn slice_error(slice: SliceImage<'_>) -> Option<ObjectError> {
    match slice.lookup {
        Some(SectionLookup::NotAnObject) => Some(ObjectError::InvalidObject),
        Some(SectionLookup::Found(section)) => if section_base(section@, slice.offset as int) is None {
            Some(ObjectError::SectionDataNotFound)
        } else {
            None
        },
        _ => None,
    }
}

/// The slice has the section, and the section holds a match.
pub open spec fn slice_hit(view: PatternView, slice: SliceImage<'_>) -> bool {
    slice_section(slice) matches Some(section) && exists|offset: usize| #[trigger]
        view.reports(section.data->0, offset as int)
}

/// What scanning the slices of an archive gives: the error of the first
/// slice that has one; else `SectionNotFound` where no slice has the
/// section; else whether some slice holds a match.
pub open spec fn archive_outcome(
    view: PatternView,
    slices: Seq<SliceImage<'_>>,
    result: Result<bool, ObjectError>,
) -> bool {
    match result {
        Err(error) => {
            ||| exists|at: int|
                0 <= at < slices.len() && #[trigger] slice_error(slices[at]) == Some(error)
                    && forall|before: int|
                    0 <= before < at ==> (#[trigger] slice_error(slices[before])) is None
            ||| {
                &&& error == ObjectError::SectionNotFound
                &&& forall|at: int| 0 <= at < slices.len() ==> (#[trigger] slice_error(slices[at])) is None
                &&& forall|at: int|
                    0 <= at < slices.len() ==> (#[trigger] slice_section(slices[at])) is None
            }
        },
        Ok(found) => {
            &&& forall|at: int| 0 <= at < slices.len() ==> (#[trigger] slice_error(slices[at])) is None
            &&& exists|at: int| 0 <= at < slices.len() && (#[trigger] slice_section(slices[at])) is Some
            &&& found <==> exists|at: int| 0 <= at < slices.len() && #[trigger] slice_hit(view, slices[at])
        },
    }
}

/// In every slice that has the section, every match was handed to the
/// callback, unless it answered `false` at a match of that slice.
pub open spec fn archive_visited<F: FnMut(SectionResult) -> bool>(
    view: PatternView,
    slices: Seq<SliceImage<'_>>,
    callback: F,
) -> bool {
    forall|at: int|
        0 <= at < slices.len() && (#[trigger] slice_section(slices[at])) is Some ==> section_visited(
            view,
            slice_section(slices[at])->0,
            Some(slices[at].architecture),
            slices[at].offset as int,
            callback,
        )
}

/// Scans the named section of each slice of an archive in turn, each as
/// a scan of its own. A slice whose bytes the archive does not hold, or
/// that lacks the section, is passed over.
pub fn scan_archive<F: FnMut(SectionResult) -> bool>(
    pattern: &Pattern,
    slices: &Vec<SliceImage>,
    sink: &mut SectionSink<F>,
) -> (result: Result<bool, ObjectError>)
    requires
        forall|found: SectionResult| call_requires(old(sink).callback, (found,)),
    ensures
        final(sink).callback == old(sink).callback,
        archive_outcome(pattern@, slices@, result),
        result is Ok ==> archive_visited(pattern@, slices@, old(sink).callback),
{
    let ghost view = pattern@;
    let mut section_found = false;
    let mut found = false;
    let mut i: usize = 0;
    while i < slices.len()
        invariant
            view == pattern@,
            i <= slices@.len(),
            sink.callback == old(sink).callback,
            sink.handed().len() >= old(sink).handed().len(),
            forall|found: SectionResult| call_requires(sink.callback, (found,)),
            forall|at: int| 0 <= at < i ==> (#[trigger] slice_error(slices@[at])) is None,
            section_found <==> exists|at: int|
                0 <= at < i && (#[trigger] slice_section(slices@[at])) is Some,
            found <==> exists|at: int| 0 <= at < i && #[trigger] slice_hit(view, slices@[at]),
            forall|at: int|
                0 <= at < i && (#[trigger] slice_section(slices@[at])) is Some ==> section_visited(
                    view,
                    slice_section(slices@[at])->0,
                    Some(slices@[at].architecture),
                    slices@[at].offset as int,
                    sink.callback,
                ),
        decreases slices@.len() - i,
    {
        let slice = &slices[i];
        match &slice.lookup {
            Some(SectionLookup::NotAnObject) => {
                assert(slice_error(slices@[i as int]) == Some(ObjectError::InvalidObject));
                return Err(ObjectError::InvalidObject);
            },
            Some(SectionLookup::Found(section)) => {
                let archive_id = Some(slice.architecture.clone());
                match scan_section(pattern, section, archive_id, slice.offset as usize, sink) {
                    Err(error) => {
                        assert(slice_error(slices@[i as int]) == Some(
                            ObjectError::SectionDataNotFound,
                        ));
                        return Err(error);
                    },
                    Ok(hit) => {
                        assert(slice_section(slices@[i as int]) is Some);
                        assert(hit == slice_hit(view, slices@[i as int]));
                        section_found = true;
                        if hit {
                            found = true;
                        }
                    },
                }
            },
            _ => {},
        }
        i += 1;
    }
    if !section_found {
        Err(ObjectError::SectionNotFound)
    } else {
        Ok(found)
    }
}

/// What scanning an image gives: the scan of the section of an object
/// file, or of the slices of an archive; `SectionNotFound` where an object
/// file lacks the section, and `InvalidObject` where the buffer is neither
/// an object file nor an archive.
pub open spec fn image_outcome(
    view: PatternView,
    image: ObjectImage<'_>,
    result: Result<bool, ObjectError>,
) -> bool {
    match image {
        ObjectImage::Object(Some(section)) => section_outcome(view, section@, 0, result),
        ObjectImage::Object(None) => result == Err::<bool, ObjectError>(ObjectError::SectionNotFound),
        ObjectImage::Archive(slices) => archive_outcome(view, slices@, result),
        ObjectImage::Neither => result == Err::<bool, ObjectError>(ObjectError::InvalidObject),
    }
}

/// Every match in the sections of the image was handed to the callback,
/// unless it answered `false` at a match of the same section.
pub open spec fn image_visited<F: FnMut(SectionResult) -> bool>(
    view: PatternView,
    image: ObjectImage<'_>,
    callback: F,
) -> bool {
    match image {
        ObjectImage::Object(Some(section)) => section_visited(view, section@, None, 0, callback),
        ObjectImage::Archive(slices) => archive_visited(view, slices@, callback),
        _ => true,
    }
}

/// Scans the sections that an image holds and hands each match to
/// `callback`. In an archive each slice is scanned by itself: an answer
/// of `false` ends the scan of the slice at hand only.
pub fn scan_image<F: FnMut(SectionResult) -> bool>(
    pattern: &Pattern,
    image: &ObjectImage,
    callback: F,
) -> (result: Result<bool, ObjectError>)
    requires
        forall|found: SectionResult| call_requires(callback, (found,)),
    ensures
        image_outcome(pattern@, *image, result),
        result is Ok ==> image_visited(pattern@, *image, callback),
{
    let mut sink = SectionSink::new(callback);
    match image {
        ObjectImage::Object(Some(section)) => scan_section(pattern, section, None, 0, &mut sink),
        ObjectImage::Object(None) => Err(ObjectError::SectionNotFound),
        ObjectImage::Archive(slices) => scan_archive(pattern, slices, &mut sink),
        ObjectImage::Neither => Err(ObjectError::InvalidObject),
    }
}

/// Scanning a named section of an object file.
pub trait ObjectScan {
    /// The pattern that is scanned for.
    spec fn pattern(&self) -> PatternView;

    /// Scans the section named `section_name` of the object file in `data`
    /// and hands each match to `callback`, until it answers `false`. In a
    /// Mach-O fat archive the section of each architecture is scanned, each
    /// as a scan of its own. The result is that of [`scan_image`] on what
    /// the `object` crate reads of the buffer.
    fn scan_object<F: FnMut(SectionResult) -> bool>(
        &self,
        data: &[u8],
        section_name: &str,
        callback: F,
    ) -> (result: Result<bool, ObjectError>)
        requires
            forall|found: SectionResult| call_requires(callback, (found,)),
        ensures
            exists|image: ObjectImage|
                {
                    &&& #[trigger] describes(image, data@, section_name@)
                    &&& image_outcome(self.pattern(), image, result)
                    &&& result is Ok ==> image_visited(self.pattern(), image, callback)
                },
    ;
}

impl ObjectScan for Pattern {
    open spec fn pattern(&self) -> PatternView {
        self@
    }

    fn scan_object<F: FnMut(SectionResult) -> bool>(
        &self,
        data: &[u8],
        section_name: &str,
        callback: F,
    ) -> (result: Result<bool, ObjectError>) {
        let image = read_object(data, section_name);
        scan_image(self, &image, callback)
    }
}

} // verus!
