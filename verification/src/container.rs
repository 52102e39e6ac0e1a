//! The Compound File Binary container of a `.mpp`: opening it, checking
//! that it is a readable MPP14 file, and reading its streams.
//!
//! The `\x01CompObj` stream names the file format; only `MSProject.MPP14`
//! is read. The root `Props14` stream records password protection: a read
//! password with a password hash makes the file unreadable; any other flag
//! means some streams are obfuscated with a single-byte XOR mask
//! (`stream_decrypted`).

use std::io::Read;

use vstd::prelude::*;

use crate::blocks::Props;
use crate::blocks::props::spec_props;
use crate::error::{is_corrupt, MppError};
use crate::text::str_equal;
use crate::version::{
    application_version, describe_format, parse_comp_obj, protection_mask,
    spec_application_version, spec_comp_obj, spec_protection, version_label,
};

verus! {

/// `cfb::CompoundFile`, an opened compound file.
#[verifier::external_type_specification]
#[verifier::external_body]
#[verifier::reject_recursive_types(F)]
pub struct ExCompoundFile<F>(cfb::CompoundFile<F>);

/// `std::io::Cursor`, the in-memory reader under the compound file.
#[verifier::external_type_specification]
#[verifier::external_body]
#[verifier::reject_recursive_types(T)]
pub struct ExCursor<T>(std::io::Cursor<T>);

/// Streams of an opened compound file: each path that `open_stream`
/// accepts, with the bytes that reading it to the end yields (`None` when
/// that read fails).
pub uninterp spec fn compound_streams(
    c: cfb::CompoundFile<std::io::Cursor<Vec<u8>>>,
) -> Map<Seq<char>, Option<Seq<u8>>>;

/// Storage paths of an opened compound file (those `is_storage` accepts).
pub uninterp spec fn compound_storages(c: cfb::CompoundFile<std::io::Cursor<Vec<u8>>>) -> Set<
    Seq<char>,
>;

/// Message of the error that `cfb::CompoundFile::open` reports for
/// in-memory `data` that is not a valid compound file.
pub uninterp spec fn cfb_open_message(data: Seq<u8>) -> Seq<char>;

/// Message of the error that `open_stream` reports for a path that is not
/// a stream of a file; it depends on the path and on whether the path
/// names a storage of the file (`storages`).
pub uninterp spec fn stream_open_message(storages: Set<Seq<char>>, path: Seq<char>) -> Seq<char>;

/// Outcome of `cfb::CompoundFile::open` on in-memory `data`: `None` when
/// the data is not a valid compound file, else its storages and streams.
pub uninterp spec fn cfb_layout(data: Seq<u8>) -> Option<
    (Set<Seq<char>>, Map<Seq<char>, Option<Seq<u8>>>),
>;

/// Opens in-memory data with `cfb::CompoundFile::open`. Opening is a
/// deterministic function of the bytes; the result's storages and streams
/// are those of `cfb_layout(data)`; a refusal carries the error's message.
#[verifier::external_body]
fn cfb_open(data: Vec<u8>) -> (r: Result<cfb::CompoundFile<std::io::Cursor<Vec<u8>>>, String>)
    ensures
        match cfb_layout(data@) {
            None => r matches Err(m) && m@ == cfb_open_message(data@),
            Some(layout) => r matches Ok(c) && compound_storages(c) == layout.0
                && compound_streams(c) == layout.1,
        },
{
    match cfb::CompoundFile::open(std::io::Cursor::new(data)) {
        Ok(c) => Ok(c),
        Err(e) => Err(e.to_string()),
    }
}

/// `cfb::CompoundFile::is_stream`: `true` exactly for the paths that
/// `open_stream` accepts.
#[verifier::external_body]
fn cfb_is_stream(c: &cfb::CompoundFile<std::io::Cursor<Vec<u8>>>, path: &str) -> (r: bool)
    ensures
        r == compound_streams(*c).contains_key(path@),
{
    c.is_stream(path)
}

/// `cfb::CompoundFile::is_storage`.
#[verifier::external_body]
fn cfb_is_storage(c: &cfb::CompoundFile<std::io::Cursor<Vec<u8>>>, path: &str) -> (r: bool)
    ensures
        r == compound_storages(*c).contains(path@),
{
    c.is_storage(path)
}

/// Why reading a whole stream failed.
pub enum StreamReadError {
    /// `open_stream` refused the path (it is not a stream); the message of
    /// its error.
    NotAStream(String),
    /// Reading the opened stream failed.
    ReadFailed(std::io::Error),
}

/// `cfb::CompoundFile::open_stream` followed by `std::io::Read::read_to_end`
/// on the stream, while the file stays borrowed: the path is refused
/// exactly when it is not a stream; otherwise the read yields the stream's
/// bytes, or fails exactly when reading that stream fails. The file's
/// contents do not change.
#[verifier::external_body]
fn cfb_read_stream(c: &mut cfb::CompoundFile<std::io::Cursor<Vec<u8>>>, path: &str) -> (r: Result<
    Vec<u8>,
    StreamReadError,
>)
    ensures
        compound_streams(*final(c)) == compound_streams(*old(c)),
        compound_storages(*final(c)) == compound_storages(*old(c)),
        match r {
            Ok(v) => compound_streams(*old(c)).contains_key(path@) && compound_streams(
                *old(c),
            )[path@] == Some(v@),
            Err(StreamReadError::NotAStream(m)) => !compound_streams(*old(c)).contains_key(path@)
                && m@ == stream_open_message(compound_storages(*old(c)), path@),
            Err(StreamReadError::ReadFailed(_)) => compound_streams(*old(c)).contains_key(path@)
                && compound_streams(*old(c))[path@] is None,
        },
{
    let mut stream = match c.open_stream(path) {
        Ok(s) => s,
        Err(e) => return Err(StreamReadError::NotAStream(e.to_string())),
    };
    let mut buf = Vec::new();
    match stream.read_to_end(&mut buf) {
        Ok(_) => Ok(buf),
        Err(e) => Err(StreamReadError::ReadFailed(e)),
    }
}

/// Storage that holds the project data of an MPP14 file.
pub const MPP14_ROOT: &'static str = "/   114";

/// Full path of a stream relative to the project storage.
pub open spec fn project_path(relative: Seq<char>) -> Seq<char> {
    "/   114/"@ + relative
}

/// Bytes `b` with every byte XORed with `mask`.
pub open spec fn xor_bytes(b: Seq<u8>, mask: u8) -> Seq<u8> {
    Seq::new(b.len(), |i: int| b[i] ^ mask)
}

/// An opened MPP14 file.
pub struct MppContainer {
    comp: cfb::CompoundFile<std::io::Cursor<Vec<u8>>>,
    file_format: String,
    application_name: String,
    application_version: u32,
    /// XOR mask of the password obfuscation (0 = none).
    encryption_mask: u8,
}

/// Outcome of opening a file.
pub enum OpenOutcome {
    NotACompoundFile,
    /// Opening a stream failed (`Corrupt` in that context) or reading it
    /// failed (`Io`).
    StreamFailure { path: Seq<char> },
    CompObjUnreadable,
    UnsupportedVersion { found: Seq<char> },
    MissingRoot,
    ShortProps14,
    PasswordProtected,
    Opened { name: Seq<char>, format: Seq<char>, version: u32, mask: u8 },
}

/// Outcome of opening a compound file with the given storages and streams.
pub open spec fn open_outcome(
    storages: Set<Seq<char>>,
    streams: Map<Seq<char>, Option<Seq<u8>>>,
) -> OpenOutcome {
    let comp_obj = "/\u{1}CompObj"@;
    if !streams.contains_key(comp_obj) || streams[comp_obj] is None {
        OpenOutcome::StreamFailure { path: comp_obj }
    } else {
        match spec_comp_obj(streams[comp_obj].unwrap()) {
            None => OpenOutcome::CompObjUnreadable,
            Some((name, format)) => {
                if format != "MSProject.MPP14"@ {
                    OpenOutcome::UnsupportedVersion { found: version_label(format) }
                } else if !storages.contains("/   114"@) {
                    OpenOutcome::MissingRoot
                } else {
                    let version = spec_application_version(name);
                    let props14 = "/Props14"@;
                    if !streams.contains_key(props14) {
                        OpenOutcome::Opened { name, format, version, mask: 0 }
                    } else if streams[props14] is None {
                        OpenOutcome::StreamFailure { path: props14 }
                    } else if streams[props14].unwrap().len() < 16 {
                        OpenOutcome::ShortProps14
                    } else {
                        match spec_protection(spec_props(streams[props14].unwrap())) {
                            None => OpenOutcome::PasswordProtected,
                            Some(mask) => OpenOutcome::Opened { name, format, version, mask },
                        }
                    }
                }
            },
        }
    }
}

/// Outcome of opening in-memory `data`.
pub open spec fn spec_open(data: Seq<u8>) -> OpenOutcome {
    match cfb_layout(data) {
        None => OpenOutcome::NotACompoundFile,
        Some((storages, streams)) => open_outcome(storages, streams),
    }
}

/// The error `e` is the one reported for the failure of a stream `path`
/// (named `context` in the error): `Corrupt` when the stream cannot be
/// opened, `Io` when reading it fails.
pub open spec fn stream_error(e: MppError, context: Seq<char>, streams: Map<Seq<char>, Option<Seq<u8>>>, path: Seq<char>) -> bool {
    if !streams.contains_key(path) {
        is_corrupt_in_ctx(e, context)
    } else {
        e is Io
    }
}

pub open spec fn is_corrupt_in_ctx(e: MppError, context: Seq<char>) -> bool {
    e matches MppError::Corrupt { context: c, .. } && c@ == context
}

/// `c` is the container opened from `data`: the names, version and mask
/// that `spec_open` found, over the storages and streams of the compound
/// file.
pub open spec fn opened_from(c: MppContainer, data: Seq<u8>) -> bool {
    &&& spec_open(data) matches OpenOutcome::Opened { name, format, version, mask }
    &&& c.app_name() == name
    &&& c.format() == format
    &&& c.version() == version
    &&& c.mask() == mask
    &&& cfb_layout(data) matches Some(layout) && c.storages() == layout.0 && c.streams() == layout.1
}

/// The streams of the compound file in `data` (none when it is not one).
pub open spec fn layout_streams(data: Seq<u8>) -> Map<Seq<char>, Option<Seq<u8>>> {
    match cfb_layout(data) {
        Some((_, streams)) => streams,
        None => Map::empty(),
    }
}

/// The storages of the compound file in `data` (none when it is not one).
pub open spec fn layout_storages(data: Seq<u8>) -> Set<Seq<char>> {
    match cfb_layout(data) {
        Some((storages, _)) => storages,
        None => Set::empty(),
    }
}

/// `r` is the outcome of opening `data`: the error of each way to fail, or
/// the opened container.
pub open spec fn open_result(r: Result<MppContainer, MppError>, data: Seq<u8>) -> bool {
    match spec_open(data) {
        OpenOutcome::NotACompoundFile => r matches Err(MppError::NotACompoundFile(m)) && m@
            == cfb_open_message(data),
        OpenOutcome::StreamFailure { path } => r matches Err(e) && {
            let context = if path == "/\u{1}CompObj"@ {
                "CompObj"@
            } else {
                "Props14"@
            };
            &&& stream_error(e, context, layout_streams(data), path)
            &&& !layout_streams(data).contains_key(path) ==> is_corrupt(
                e,
                context,
                stream_open_message(layout_storages(data), path),
            )
        },
        OpenOutcome::CompObjUnreadable => r matches Err(e) && is_corrupt(
            e,
            "CompObj"@,
            "no se pudo leer applicationName"@,
        ),
        OpenOutcome::UnsupportedVersion { found } => r matches Err(
            MppError::UnsupportedVersion { found: f },
        ) && f@ == found,
        OpenOutcome::MissingRoot => r matches Err(e) && is_corrupt(
            e,
            "raíz"@,
            "CompObj dice MPP14 pero falta el storage '   114'"@,
        ),
        OpenOutcome::ShortProps14 => r matches Err(e) && is_corrupt(
            e,
            "Props14"@,
            "Props más corto que el header"@,
        ),
        OpenOutcome::PasswordProtected => r matches Err(e) && e is PasswordProtected,
        OpenOutcome::Opened { .. } => r matches Ok(c) && opened_from(c, data),
    }
}

/// `e` is the error of reading the stream `relative` of the project
/// storage of `c`.
pub open spec fn stream_failure(c: MppContainer, relative: Seq<char>, e: MppError) -> bool {
    &&& c.stream_bytes(relative) is None
    &&& stream_error(e, relative, c.streams(), project_path(relative))
    &&& !c.streams().contains_key(project_path(relative)) ==> is_corrupt(
        e,
        relative,
        c.open_message(project_path(relative)),
    )
}

/// `e` is the error of reading the project Props of `c`: the stream cannot
/// be read, or it is shorter than its header.
pub open spec fn props_failure(c: MppContainer, e: MppError) -> bool {
    ||| stream_failure(c, "Props"@, e)
    ||| c.stream_bytes("Props"@) is Some && xor_bytes(c.stream_bytes("Props"@).unwrap(), c.mask()).len()
        < 16 && is_corrupt(e, "Props"@, "Props más corto que el header"@)
}

impl MppContainer {
    /// Streams of the file.
    pub closed spec fn streams(&self) -> Map<Seq<char>, Option<Seq<u8>>> {
        compound_streams(self.comp)
    }

    /// Message of the error that opening `path` as a stream reports when it
    /// is not a stream of the file.
    pub open spec fn open_message(&self, path: Seq<char>) -> Seq<char> {
        stream_open_message(self.storages(), path)
    }

    /// Storages of the file.
    pub closed spec fn storages(&self) -> Set<Seq<char>> {
        compound_storages(self.comp)
    }

    /// Obfuscation mask.
    pub closed spec fn mask(&self) -> u8 {
        self.encryption_mask
    }

    /// Application name recorded in `CompObj`.
    pub closed spec fn app_name(&self) -> Seq<char> {
        self.application_name@
    }

    /// File format recorded in `CompObj`.
    pub closed spec fn format(&self) -> Seq<char> {
        self.file_format@
    }

    /// Application version.
    pub closed spec fn version(&self) -> u32 {
        self.application_version
    }

    /// Bytes of the stream at `relative` within the project storage, when
    /// it can be opened and read.
    pub open spec fn stream_bytes(&self, relative: Seq<char>) -> Option<Seq<u8>> {
        if self.streams().contains_key(project_path(relative)) {
            self.streams()[project_path(relative)]
        } else {
            None
        }
    }

    /// Opens in-memory data and checks that it is a readable MPP14 file.
    pub fn open(data: Vec<u8>) -> (r: Result<MppContainer, MppError>)
        ensures
            open_result(r, data@),
    {
        let ghost layout = cfb_layout(data@);
        let mut comp = match cfb_open(data) {
            Ok(c) => c,
            Err(m) => return Err(MppError::NotACompoundFile(m)),
        };
        let ghost streams = compound_streams(comp);
        let ghost storages = compound_storages(comp);
        let comp_obj = read_whole_stream(&mut comp, "/\u{1}CompObj", "CompObj")?;
        let (application_name, file_format) = parse_comp_obj(comp_obj.as_slice())?;
        if !str_equal(file_format.as_str(), "MSProject.MPP14") {
            let found = describe_format(file_format.as_str());
            return Err(MppError::UnsupportedVersion { found });
        }
        if !cfb_is_storage(&comp, MPP14_ROOT) {
            return Err(
                MppError::corrupt(
                    "raíz",
                    "CompObj dice MPP14 pero falta el storage '   114'".to_owned(),
                ),
            );
        }
        let name_chars = crate::text::chars_of(application_name.as_str());
        let application_version = application_version(name_chars.as_slice());
        let mut encryption_mask: u8 = 0;
        if cfb_is_stream(&comp, "/Props14") {
            let buf = read_whole_stream(&mut comp, "/Props14", "Props14")?;
            let props = Props::parse(buf.as_slice(), "Props14")?;
            encryption_mask = protection_mask(&props)?;
        }
        Ok(MppContainer { comp, file_format, application_name, application_version, encryption_mask })
    }

    /// File format recorded in `CompObj` (`MSProject.MPP14`).
    pub fn file_format(&self) -> (r: &str)
        ensures
            r@ == self.format(),
    {
        self.file_format.as_str()
    }

    /// Name of the application that wrote the file.
    pub fn application_name(&self) -> (r: &str)
        ensures
            r@ == self.app_name(),
    {
        self.application_name.as_str()
    }

    /// Version of the application that wrote the file (14 = Project 2010,
    /// 15 = 2013, 16 = 2016 and later); decides layout variants.
    pub fn application_version(&self) -> (r: u32)
        ensures
            r == self.version(),
    {
        self.application_version
    }

    /// Reads the whole stream at `relative` within the project storage
    /// (e.g. `TBkndTask/VarMeta`).
    pub fn stream(&mut self, relative: &str) -> (r: Result<Vec<u8>, MppError>)
        ensures
            final(self).streams() == old(self).streams(),
            final(self).storages() == old(self).storages(),
            final(self).mask() == old(self).mask(),
            final(self).version() == old(self).version(),
            match r {
                Ok(v) => old(self).stream_bytes(relative@) == Some(v@),
                Err(e) => old(self).stream_bytes(relative@) is None && stream_error(
                    e,
                    relative@,
                    old(self).streams(),
                    project_path(relative@),
                ),
            },
            !old(self).streams().contains_key(project_path(relative@)) ==> (r matches Err(e)
                && is_corrupt(e, relative@, old(self).open_message(project_path(relative@)))),
    {
        let mut path = "/   114/".to_owned();
        path.push_str(relative);
        read_whole_stream(&mut self.comp, path.as_str(), relative)
    }

    /// Like [`stream`](Self::stream), with the obfuscation mask applied.
    /// Only the project `Props` and the fixed data of resources,
    /// assignments and relations are obfuscated.
    pub fn stream_decrypted(&mut self, relative: &str) -> (r: Result<Vec<u8>, MppError>)
        ensures
            final(self).streams() == old(self).streams(),
            final(self).storages() == old(self).storages(),
            final(self).mask() == old(self).mask(),
            final(self).version() == old(self).version(),
            match r {
                Ok(v) => old(self).stream_bytes(relative@) is Some && v@ == xor_bytes(
                    old(self).stream_bytes(relative@).unwrap(),
                    old(self).mask(),
                ),
                Err(e) => old(self).stream_bytes(relative@) is None && stream_error(
                    e,
                    relative@,
                    old(self).streams(),
                    project_path(relative@),
                ),
            },
            !old(self).streams().contains_key(project_path(relative@)) ==> (r matches Err(e)
                && is_corrupt(e, relative@, old(self).open_message(project_path(relative@)))),
    {
        let mut buf = self.stream(relative)?;
        let ghost before = buf@;
        if self.encryption_mask != 0 {
            let mut i: usize = 0;
            while i < buf.len()
                invariant
                    i <= buf@.len(),
                    buf@.len() == before.len(),
                    forall|k: int| 0 <= k < i ==> buf@[k] == before[k] ^ self.encryption_mask,
                    forall|k: int| i <= k < buf@.len() ==> buf@[k] == before[k],
                decreases buf@.len() - i,
            {
                let b = buf[i] ^ self.encryption_mask;
                buf.set(i, b);
                i = i + 1;
            }
        } else {
            assert forall|k: int| 0 <= k < buf@.len() implies buf@[k] == before[k]
                ^ self.encryption_mask by {
                let x = buf@[k];
                assert(x ^ 0 == x) by (bit_vector);
            }
        }
        assert(buf@ =~= xor_bytes(before, self.encryption_mask));
        Ok(buf)
    }

    /// `true` when `relative` names a stream within the project storage.
    pub fn has_stream(&self, relative: &str) -> (r: bool)
        ensures
            r == self.streams().contains_key(project_path(relative@)),
    {
        let mut path = "/   114/".to_owned();
        path.push_str(relative);
        cfb_is_stream(&self.comp, path.as_str())
    }

    /// The project `Props` (obfuscated like the other masked streams).
    pub fn project_props(&mut self) -> (r: Result<Props, MppError>)
        ensures
            final(self).streams() == old(self).streams(),
            final(self).storages() == old(self).storages(),
            final(self).mask() == old(self).mask(),
            final(self).version() == old(self).version(),
            match r {
                Ok(p) => old(self).stream_bytes("Props"@) is Some && {
                    let b = xor_bytes(old(self).stream_bytes("Props"@).unwrap(), old(self).mask());
                    b.len() >= 16 && p@ == spec_props(b)
                },
                Err(e) => props_failure(*old(self), e),
            },
    {
        let buf = self.stream_decrypted("Props")?;
        Props::parse(buf.as_slice(), "Props")
    }
}

/// Opens the stream `path` and reads it to the end; failures name
/// `context`.
fn read_whole_stream(
    comp: &mut cfb::CompoundFile<std::io::Cursor<Vec<u8>>>,
    path: &str,
    context: &str,
) -> (r: Result<Vec<u8>, MppError>)
    ensures
        compound_streams(*final(comp)) == compound_streams(*old(comp)),
        compound_storages(*final(comp)) == compound_storages(*old(comp)),
        match r {
            Ok(v) => compound_streams(*old(comp)).contains_key(path@) && compound_streams(
                *old(comp),
            )[path@] == Some(v@),
            Err(e) => {
                &&& !(compound_streams(*old(comp)).contains_key(path@) && compound_streams(
                    *old(comp),
                )[path@] is Some)
                &&& stream_error(e, context@, compound_streams(*old(comp)), path@)
                &&& !compound_streams(*old(comp)).contains_key(path@) ==> is_corrupt(
                    e,
                    context@,
                    stream_open_message(compound_storages(*old(comp)), path@),
                )
            },
        },
{
    match cfb_read_stream(comp, path) {
        Ok(v) => Ok(v),
        Err(StreamReadError::NotAStream(m)) => Err(MppError::corrupt(context, m)),
        Err(StreamReadError::ReadFailed(e)) => Err(MppError::Io(e)),
    }
}

} // verus!
