//! Packing a version's files into a zip archive for download.
use vstd::prelude::*;

use crate::error::AppError;
use crate::model::PublishBundleFile;
use crate::text::utf8_size;

verus! {

/// A zip archive being written into memory. Verus refuses a declaration of
/// `zip::ZipWriter` (its bounds name `std::io::Write` and `std::io::Seek`), so the writer
/// is held here, out of Verus's sight; only the functions below touch it.
#[verifier::external_body]
pub struct ArchiveWriter {
    inner: zip::ZipWriter<std::io::Cursor<Vec<u8>>>,
}

/// The names of the entries an archive writer holds, in the order they were started
/// (the writer keeps them in an insertion-ordered map keyed by name).
pub uninterp spec fn entry_names(w: ArchiveWriter) -> Seq<Seq<char>>;

/// The data handed to each entry of an archive writer, as text, in the order of
/// `entry_names`.
pub uninterp spec fn entry_texts(w: ArchiveWriter) -> Seq<Seq<char>>;

/// Whether the writer is in the middle of an entry: one was started and may be written.
pub uninterp spec fn entry_open(w: ArchiveWriter) -> bool;

/// The longest entry name, in UTF-8 bytes, that these functions promise the writer
/// accepts (the crate refuses a local header of 64 KiB or more: 30 bytes and the name).
pub const MAX_ENTRY_NAME_BYTES: usize = 65000;

/// The longest entry data, in UTF-8 bytes, that these functions promise the writer
/// accepts. The crate refuses an entry of 4 GiB or more, compressed or not, without the
/// large-file option; half of that leaves room for what compression adds.
pub const MAX_ENTRY_DATA_BYTES: usize = 0x8000_0000;

/// Every text is below the size the writer is promised to accept.
pub open spec fn texts_fit(texts: Seq<Seq<char>>) -> bool {
    forall|k: int| 0 <= k < texts.len() ==> utf8_size(#[trigger] texts[k]) < MAX_ENTRY_DATA_BYTES
}

/// The entries that the bytes of a zip archive hold, as `zip::ZipArchive` reads them
/// back: each entry's name with its (decompressed) data as text, in the archive's order.
pub uninterp spec fn zip_entries(archive: Seq<u8>) -> Seq<(Seq<char>, Seq<char>)>;

/// Names paired with the texts at the same positions.
pub open spec fn named_texts(names: Seq<Seq<char>>, texts: Seq<Seq<char>>) -> Seq<
    (Seq<char>, Seq<char>),
> {
    Seq::new(names.len(), |i: int| (names[i], texts[i]))
}

/// `texts` with `more` added to the end of its last text (unchanged when it has none).
pub open spec fn appended_to_last(texts: Seq<Seq<char>>, more: Seq<char>) -> Seq<Seq<char>> {
    if texts.len() == 0 {
        texts
    } else {
        texts.update(texts.len() - 1, texts.last() + more)
    }
}

/// `zip::ZipWriter::new` over an empty in-memory buffer. Trusted: it cannot fail, and the
/// new writer holds no entry.
#[verifier::external_body]
fn new_archive() -> (r: ArchiveWriter)
    ensures
        entry_names(r) == Seq::<Seq<char>>::empty(),
        entry_texts(r) == Seq::<Seq<char>>::empty(),
        !entry_open(r),
{
    ArchiveWriter { inner: zip::ZipWriter::new(std::io::Cursor::new(Vec::new())) }
}

/// `zip::ZipWriter::start_file` with the default options, its error as text. Trusted: a
/// name the writer already holds is refused (the crate checks its map of names before it
/// adds one), and an accepted entry is added after the others under `path`, with no data
/// yet, and is open for writing. A new name below `MAX_ENTRY_NAME_BYTES` is accepted when
/// the entries' data so far is below `MAX_ENTRY_DATA_BYTES` each: starting an entry
/// finishes the one before it, and on an in-memory buffer the crate's only other refusals
/// are for names of 64 KiB and entries of 4 GiB. What a refusal leaves behind is not
/// stated.
#[verifier::external_body]
fn start_entry(w: &mut ArchiveWriter, path: &str) -> (r: Result<
    (),
    String,
>)
    ensures
        entry_names(*old(w)).contains(path@) ==> r is Err,
        r is Ok ==> entry_names(*final(w)) == entry_names(*old(w)).push(path@),
        r is Ok ==> entry_texts(*final(w)) == entry_texts(*old(w)).push(Seq::<char>::empty()),
        r is Ok ==> entry_open(*final(w)),
        !entry_names(*old(w)).contains(path@) && utf8_size(path@) < MAX_ENTRY_NAME_BYTES
            && texts_fit(entry_texts(*old(w))) ==> r is Ok,
{
    w.inner.start_file(path, zip::write::SimpleFileOptions::default()).map_err(|e| e.to_string())
}

/// `std::io::Write::write_all` on the archive: the UTF-8 bytes of `text` into the current
/// entry, its error as text. Trusted: a write that succeeds adds `text` to the data of
/// the entry started last and leaves the entry names, and whether an entry is open, as
/// they were (with no entry started, only an empty text is accepted, and it changes
/// nothing). A write into an open entry succeeds when the entry's data stays below
/// `MAX_ENTRY_DATA_BYTES`: on an in-memory buffer the crate refuses only an entry that
/// grows to 4 GiB without the large-file option (and then drops that entry).
#[verifier::external_body]
fn write_entry(w: &mut ArchiveWriter, text: &str) -> (r: Result<
    (),
    String,
>)
    ensures
        r is Ok ==> entry_names(*final(w)) == entry_names(*old(w)),
        r is Ok ==> entry_texts(*final(w)) == appended_to_last(entry_texts(*old(w)), text@),
        r is Ok ==> entry_open(*final(w)) == entry_open(*old(w)),
        entry_open(*old(w)) && entry_texts(*old(w)).len() > 0 && utf8_size(
            entry_texts(*old(w)).last() + text@,
        ) < MAX_ENTRY_DATA_BYTES ==> r is Ok,
{
    std::io::Write::write_all(&mut w.inner, text.as_bytes()).map_err(|e| e.to_string())
}

/// `zip::ZipWriter::finish`, then the buffer's bytes, its error as text. Trusted: the
/// archive written holds the writer's entries, each name with the data handed to it, in
/// order; and it is written when every entry's data is below `MAX_ENTRY_DATA_BYTES` (on
/// an in-memory buffer the crate's only refusal here is for the last entry reaching
/// 4 GiB once compressed). The bytes themselves are not named: with the crate's `time`
/// feature each entry records the time it was written.
#[verifier::external_body]
fn finish_archive(w: ArchiveWriter) -> (r: Result<Vec<u8>, String>)
    ensures
        r matches Ok(b) ==> zip_entries(b@) == named_texts(entry_names(w), entry_texts(w)),
        texts_fit(entry_texts(w)) ==> r is Ok,
{
    w.inner.finish().map(|c| c.into_inner()).map_err(|e| e.to_string())
}

/// The paths of `files`, in order.
pub open spec fn bundle_paths(files: Seq<PublishBundleFile>) -> Seq<Seq<char>> {
    files.map_values(|f: PublishBundleFile| f.path@)
}

/// Each file's path with its content, in order.
pub open spec fn bundle_entries(files: Seq<PublishBundleFile>) -> Seq<(Seq<char>, Seq<char>)> {
    files.map_values(|f: PublishBundleFile| (f.path@, f.content@))
}

/// Whether every path and content is small enough for an archive entry: paths below
/// `MAX_ENTRY_NAME_BYTES` and contents below `MAX_ENTRY_DATA_BYTES`, in UTF-8 bytes.
pub open spec fn files_fit(files: Seq<PublishBundleFile>) -> bool {
    forall|k: int|
        0 <= k < files.len() ==> utf8_size((#[trigger] files[k]).path@) < MAX_ENTRY_NAME_BYTES
            && utf8_size(files[k].content@) < MAX_ENTRY_DATA_BYTES
}

/// Whether two of `files` share a path.
pub open spec fn has_repeated_path(files: Seq<PublishBundleFile>) -> bool {
    exists|i: int, j: int| 0 <= i < j < files.len() && #[trigger] files[i].path@ == #[trigger] files[j].path@
}

/// A zip archive holding each file under its path, in order. The entries are started
/// with the files' paths, one after another; an archive cannot hold two entries of one
/// name, so files that repeat a path give an error. A failure of the archive writer is
/// an internal error that carries its message.
pub fn zip_files(files: &Vec<PublishBundleFile>) -> (r: Result<Vec<u8>, AppError>)
    ensures
        r matches Err(e) ==> e is Internal,
        has_repeated_path(files@) ==> r is Err,
        r matches Ok(b) ==> zip_entries(b@) == bundle_entries(files@),
        !has_repeated_path(files@) && files_fit(files@) ==> r is Ok,
{
    let mut writer = new_archive();
    let mut i: usize = 0;
    while i < files.len()
        invariant
            i <= files.len(),
            entry_names(writer) == bundle_paths(files@).take(i as int),
            entry_texts(writer) == files@.take(i as int).map_values(
                |f: PublishBundleFile| f.content@,
            ),
            forall|a: int, b: int| 0 <= a < b < i ==> files@[a].path@ != files@[b].path@,
        decreases files.len() - i,
    {
        proof {
            assert(bundle_paths(files@)[i as int] == files@[i as int].path@);
            if exists|a: int| 0 <= a < i && files@[a].path@ == files@[i as int].path@ {
                let a = choose|a: int| 0 <= a < i && files@[a].path@ == files@[i as int].path@;
                assert(entry_names(writer)[a] == files@[i as int].path@);
            }
            assert(bundle_paths(files@).take(i + 1) == bundle_paths(files@).take(i as int).push(
                files@[i as int].path@,
            ));
            if !has_repeated_path(files@) && files_fit(files@) {
                if entry_names(writer).contains(files@[i as int].path@) {
                    let a = choose|a: int|
                        0 <= a < entry_names(writer).len() && entry_names(writer)[a]
                            == files@[i as int].path@;
                    assert(files@[a].path@ == files@[i as int].path@);
                }
                assert forall|k: int| 0 <= k < entry_texts(writer).len() implies utf8_size(
                    #[trigger] entry_texts(writer)[k],
                ) < MAX_ENTRY_DATA_BYTES by {
                    assert(entry_texts(writer)[k] == files@[k].content@);
                }
            }
        }
        match start_entry(&mut writer, files[i].path.as_str()) {
            Ok(()) => {},
            Err(m) => {
                return Err(AppError::Internal(m));
            },
        }
        proof {
            assert(Seq::<char>::empty() + files@[i as int].content@ =~= files@[i as int].content@);
        }
        match write_entry(&mut writer, files[i].content.as_str()) {
            Ok(()) => {},
            Err(m) => {
                return Err(AppError::Internal(m));
            },
        }
        proof {
            let before = files@.take(i as int).map_values(|f: PublishBundleFile| f.content@);
            let after = files@.take(i + 1).map_values(|f: PublishBundleFile| f.content@);
            assert(Seq::<char>::empty() + files@[i as int].content@ =~= files@[i as int].content@);
            assert(after =~= before.push(Seq::<char>::empty()).update(
                i as int,
                Seq::<char>::empty() + files@[i as int].content@,
            ));
        }
        i += 1;
    }
    assert(!has_repeated_path(files@));
    assert(named_texts(entry_names(writer), entry_texts(writer)) =~= bundle_entries(files@));
    proof {
        if files_fit(files@) {
            assert forall|k: int| 0 <= k < entry_texts(writer).len() implies utf8_size(
                #[trigger] entry_texts(writer)[k],
            ) < MAX_ENTRY_DATA_BYTES by {
                assert(entry_texts(writer)[k] == files@[k].content@);
            }
        }
    }
    match finish_archive(writer) {
        Ok(bytes) => Ok(bytes),
        Err(m) => Err(AppError::Internal(m)),
    }
}

} // verus!
