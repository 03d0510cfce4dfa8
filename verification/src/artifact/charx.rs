//! Character cards in CHARX archives.
use vstd::prelude::*;
use vstd::utf8::{decode_utf8, valid_utf8};

use crate::artifact::exif::ContainerError;
use crate::artifact::octets::{copy_range, is_marked, marks};
use crate::artifact::png::inflation_view;
use crate::artifact_codec::{check_steps, steps_down};
use crate::text::{
    self, ascii_lower_text, contains_text, find_char, from_range, lemma_next_char,
    lemma_views_push, option_view, same_ignoring_case, text_from_utf8, to_chars, views,
};

verus! {

/// The bytes that every archive begins with.
pub const CHARX_SIGNATURE: &'static str = "PK\u{3}\u{4}";

/// Whether bytes begin like an archive.
pub fn is_charx(source: &Vec<u8>) -> (r: bool)
    ensures
        r == marks(source@, 0, CHARX_SIGNATURE@),
{
    is_marked(source, 0, CHARX_SIGNATURE)
}

/// How many entries `zip` finds in an archive, or why it finds none.
pub uninterp spec fn archive_length(source: Seq<u8>) -> Result<usize, Seq<char>>;

/// The outcome of opening an archive, by its views.
pub open spec fn length_view(r: Result<usize, String>) -> Result<usize, Seq<char>> {
    match r {
        Ok(n) => Ok(n),
        Err(message) => Err(message@),
    }
}

/// `zip::ZipArchive::new` on the bytes, and `len` of what it opens: the number, or
/// the message of the error, depends on the bytes alone.
#[verifier::external_body]
pub(crate) fn count_entries(source: &[u8]) -> (r: Result<usize, String>)
    ensures
        length_view(r) == archive_length(source@),
{
    match zip::ZipArchive::new(std::io::Cursor::new(source)) {
        Ok(archive) => Ok(archive.len()),
        Err(error) => Err(error.to_string()),
    }
}

/// What an archive says of an entry.
pub struct ArchiveEntry {
    pub raw_name: Vec<u8>,
    pub name: String,
    pub enclosed: bool,
    pub symlink: bool,
    pub file: bool,
    pub directory: bool,
    pub encrypted: bool,
    pub size: u64,
}

/// What an archive says of an entry, but for whether its name stays below the
/// place that it is unpacked to: with a colon in it, that is up to the machine.
pub struct EntryView {
    pub raw_name: Seq<u8>,
    pub name: Seq<char>,
    pub symlink: bool,
    pub file: bool,
    pub directory: bool,
    pub encrypted: bool,
    pub size: u64,
}

impl View for ArchiveEntry {
    type V = EntryView;

    open spec fn view(&self) -> EntryView {
        EntryView {
            raw_name: self.raw_name@,
            name: self.name@,
            symlink: self.symlink,
            file: self.file,
            directory: self.directory,
            encrypted: self.encrypted,
            size: self.size,
        }
    }
}

/// What `zip` says of the entry of an archive at a place, or why it opens none.
pub uninterp spec fn archive_entry(source: Seq<u8>, index: usize) -> Result<EntryView, Seq<char>>;

/// The outcome of opening an entry, by its views.
pub open spec fn entry_view(r: Result<ArchiveEntry, String>) -> Result<EntryView, Seq<char>> {
    match r {
        Ok(entry) => Ok(entry@),
        Err(message) => Err(message@),
    }
}

/// A name that stays below the place that it is unpacked to on every machine: its
/// steps go down, and it has nothing in it that some machine takes for the parting
/// of steps, for a drive or for an end.
pub open spec fn stays_below(name: Seq<char>) -> bool {
    &&& steps_down(without_slash(name), 0)
    &&& !name.contains('\\')
    &&& !name.contains(':')
    &&& !name.contains('\0')
}

/// `zip::ZipArchive::by_index` on the archive that the bytes are, and what the
/// entry says of itself. All of it depends on the bytes and the place alone, but
/// for what `enclosed_name` says: the machine decides which names start with a
/// drive. Of that one it is stated that a name that stays below everywhere is
/// accepted and that a name with a zero in it is refused.
#[verifier::external_body]
pub(crate) fn open_entry(source: &[u8], index: usize) -> (r: Result<ArchiveEntry, String>)
    ensures
        entry_view(r) == archive_entry(source@, index),
        r matches Ok(entry) ==> stays_below(entry.name@) ==> entry.enclosed,
        r matches Ok(entry) ==> entry.name@.contains('\0') ==> !entry.enclosed,
{
    let mut archive = match zip::ZipArchive::new(std::io::Cursor::new(source)) {
        Ok(archive) => archive,
        Err(error) => return Err(error.to_string()),
    };
    let e = match archive.by_index(index) {
        Ok(entry) => entry,
        Err(error) => return Err(error.to_string()),
    };
    Ok(ArchiveEntry { raw_name: e.name_raw().to_vec(), name: e.name().to_owned(),
        enclosed: e.enclosed_name().is_some(), symlink: e.is_symlink(), file: e.is_file(),
        directory: e.is_dir(), encrypted: e.encrypted(), size: e.size() })
}

/// At most so many of the bytes that `zip` unpacks of the entry of an archive at a
/// place, or why it unpacks none.
pub uninterp spec fn archive_bytes(source: Seq<u8>, index: usize, limit: u64) -> Result<
    Seq<u8>,
    Seq<char>,
>;

/// `zip::read::ZipFile`, the entry of the archive that the bytes are at a place,
/// read to its end or to a limit: the bytes, or the message of the error, depend
/// on the archive, the place and the limit alone, and there are no more bytes than
/// the limit.
#[verifier::external_body]
pub(crate) fn read_entry(source: &[u8], index: usize, limit: u64) -> (r: Result<Vec<u8>, String>)
    ensures
        inflation_view(r) == archive_bytes(source@, index, limit),
        r matches Ok(bytes) ==> bytes@.len() <= limit,
{
    let mut bytes = Vec::new();
    let mut archive = match zip::ZipArchive::new(std::io::Cursor::new(source)) {
        Ok(archive) => archive,
        Err(error) => return Err(error.to_string()),
    };
    let entry = match archive.by_index(index) {
        Ok(entry) => entry,
        Err(error) => return Err(error.to_string()),
    };
    let mut reader = std::io::Read::take(entry, limit);
    let outcome = std::io::Read::read_to_end(&mut reader, &mut bytes);
    outcome.map(|_| bytes).map_err(|error| error.to_string())
}

/// The last position before `to` at which `c` stands, or -1 when there is none.
pub open spec fn last_char(text: Seq<char>, c: char, to: int) -> int
    decreases to,
{
    if to <= 0 {
        -1
    } else if text[to - 1] == c {
        to - 1
    } else {
        last_char(text, c, to - 1)
    }
}

/// What stands in a text behind the last `c`, where there is one.
pub open spec fn behind_last(text: Seq<char>, c: char) -> Option<Seq<char>> {
    let at = last_char(text, c, text.len() as int);
    if 0 <= at < text.len() {
        Some(text.skip(at + 1))
    } else {
        None
    }
}

fn find_behind_last(text: &str, c: char) -> (r: Option<String>)
    ensures
        option_view(r) == behind_last(text@, c),
{
    let chars = to_chars(text);
    let mut to: usize = chars.len();
    while to > 0
        invariant
            chars@ == text@,
            to <= text@.len(),
            last_char(text@, c, text@.len() as int) == last_char(text@, c, to as int),
        decreases to,
    {
        if chars[to - 1] == c {
            let tail = from_range(&chars, to, chars.len());
            proof {
                assert(tail@ =~= text@.skip(to as int));
            }
            return Some(tail);
        }
        to = to - 1;
    }
    None
}

/// What a path of pictures or sounds ends in.
pub open spec fn is_media_extension(extension: Seq<char>) -> bool {
    ||| extension == "png"@
    ||| extension == "apng"@
    ||| extension == "webp"@
    ||| extension == "jpg"@
    ||| extension == "jpeg"@
    ||| extension == "gif"@
    ||| extension == "avif"@
    ||| extension == "wav"@
    ||| extension == "mp3"@
    ||| extension == "ogg"@
}

/// The path of a picture or a sound: its extension says so, in any case.
pub open spec fn is_media(path: Seq<char>) -> bool {
    behind_last(path, '.') matches Some(extension) && is_media_extension(
        ascii_lower_text(extension),
    )
}

fn matches_extension(extension: &str, expected: &str) -> (r: bool)
    requires
        ascii_lower_text(expected@) == expected@,
    ensures
        r == (ascii_lower_text(extension@) == expected@),
{
    same_ignoring_case(extension, expected)
}

proof fn lemma_extensions_are_small()
    ensures
        ascii_lower_text("png"@) == "png"@,
        ascii_lower_text("apng"@) == "apng"@,
        ascii_lower_text("webp"@) == "webp"@,
        ascii_lower_text("jpg"@) == "jpg"@,
        ascii_lower_text("jpeg"@) == "jpeg"@,
        ascii_lower_text("gif"@) == "gif"@,
        ascii_lower_text("avif"@) == "avif"@,
        ascii_lower_text("wav"@) == "wav"@,
        ascii_lower_text("mp3"@) == "mp3"@,
        ascii_lower_text("ogg"@) == "ogg"@,
{
    reveal_strlit("png");
    reveal_strlit("apng");
    reveal_strlit("webp");
    reveal_strlit("jpg");
    reveal_strlit("jpeg");
    reveal_strlit("gif");
    reveal_strlit("avif");
    reveal_strlit("wav");
    reveal_strlit("mp3");
    reveal_strlit("ogg");
    assert(ascii_lower_text("png"@) =~= "png"@);
    assert(ascii_lower_text("apng"@) =~= "apng"@);
    assert(ascii_lower_text("webp"@) =~= "webp"@);
    assert(ascii_lower_text("jpg"@) =~= "jpg"@);
    assert(ascii_lower_text("jpeg"@) =~= "jpeg"@);
    assert(ascii_lower_text("gif"@) =~= "gif"@);
    assert(ascii_lower_text("avif"@) =~= "avif"@);
    assert(ascii_lower_text("wav"@) =~= "wav"@);
    assert(ascii_lower_text("mp3"@) =~= "mp3"@);
    assert(ascii_lower_text("ogg"@) =~= "ogg"@);
}

/// Whether a path is that of a picture or a sound.
pub fn is_media_path(path: &str) -> (r: bool)
    ensures
        r == is_media(path@),
{
    proof {
        lemma_extensions_are_small();
    }
    match find_behind_last(path, '.') {
        None => false,
        Some(extension) => {
            let e = extension.as_str();
            matches_extension(e, "png") || matches_extension(e, "apng") || matches_extension(
                e,
                "webp",
            ) || matches_extension(e, "jpg") || matches_extension(e, "jpeg") || matches_extension(
                e,
                "gif",
            ) || matches_extension(e, "avif") || matches_extension(e, "wav") || matches_extension(
                e,
                "mp3",
            ) || matches_extension(e, "ogg")
        },
    }
}

/// A text without one slash at its end.
pub open spec fn without_slash(text: Seq<char>) -> Seq<char> {
    if text.len() > 0 && text.last() == '/' {
        text.drop_last()
    } else {
        text
    }
}

/// The path that an entry is unpacked to, or the name that is refused: every step
/// goes down, on every machine.
pub open spec fn archive_path(entry: EntryView, enclosed: bool) -> Result<Seq<char>, Seq<char>> {
    if !valid_utf8(entry.raw_name) {
        Err(entry.name)
    } else {
        let name = decode_utf8(entry.raw_name);
        let path = without_slash(name);
        if steps_down(path, 0) && !path.contains('\\') && enclosed {
            Ok(path)
        } else {
            Err(name)
        }
    }
}

/// The path that an entry is unpacked to: every step goes down, on every machine.
pub fn safe_archive_path(entry: &ArchiveEntry) -> (r: Result<String, ContainerError>)
    ensures
        match (r, archive_path(entry@, entry.enclosed)) {
            (Ok(path), Ok(expected)) => path@ == expected,
            (Err(ContainerError::UnsafeArchivePath(name)), Err(expected)) => name@ == expected,
            _ => false,
        },
{
    proof {
        assert(entry.raw_name@.subrange(0, entry.raw_name@.len() as int) =~= entry.raw_name@);
    }
    let name = match text_from_utf8(copy_range(&entry.raw_name, 0, entry.raw_name.len())) {
        Some(name) => name,
        None => return Err(ContainerError::UnsafeArchivePath(entry.name.clone())),
    };
    let chars = to_chars(name.as_str());
    let total: usize = chars.len();
    let end: usize = if total > 0 && chars[total - 1] == '/' {
        total - 1
    } else {
        total
    };
    let path = from_range(&chars, 0, end);
    let steps = to_chars(path.as_str());
    let at: usize = find_char(&steps, '\\', 0);
    proof {
        assert(path@ =~= without_slash(name@));
        lemma_next_char(path@, '\\', 0);
        if at < path@.len() {
            assert(path@.contains(path@[at as int]));
        }
    }
    if check_steps(&steps) && at >= steps.len() && entry.enclosed {
        Ok(path)
    } else {
        Err(ContainerError::UnsafeArchivePath(name))
    }
}

/// A picture or a sound of an archive.
pub struct CharxAsset {
    pub logical_path: String,
    pub bytes: Vec<u8>,
}

/// What an archive holds of a character.
pub struct CharxArchive {
    pub card_json: Vec<u8>,
    pub lorebooks: Vec<Vec<u8>>,
    pub assets: Vec<CharxAsset>,
}

/// What has been unpacked of an archive.
pub struct UnpackedView {
    pub paths: Seq<Seq<char>>,
    pub size: u64,
    pub card: Option<Seq<u8>>,
    pub lorebooks: Seq<Seq<u8>>,
    pub assets: Seq<(Seq<char>, Seq<u8>)>,
}

/// Why an archive is refused.
pub enum ArchiveFault {
    Invalid(Seq<char>),
    Unsafe(Seq<char>),
    Duplicate(Seq<char>),
    Unsupported(Seq<char>),
    Encrypted,
    TooLarge(u64),
    Unreadable(Seq<char>),
}

/// An error says why an archive is refused.
pub open spec fn says_fault(e: ContainerError, fault: ArchiveFault, most: u64) -> bool {
    match fault {
        ArchiveFault::Invalid(message) => e matches ContainerError::InvalidCharx(m) && m@
            == message,
        ArchiveFault::Unsafe(name) => e matches ContainerError::UnsafeArchivePath(n) && n@ == name,
        ArchiveFault::Duplicate(path) => e matches ContainerError::DuplicateArchivePath(p) && p@
            == path,
        ArchiveFault::Unsupported(path) => e matches ContainerError::UnsupportedArchiveEntry(p)
            && p@ == path,
        ArchiveFault::Encrypted => e is EncryptedCharx,
        ArchiveFault::TooLarge(n) => e matches ContainerError::CharxTooLarge { size, limit } && size
            == n && limit == most,
        ArchiveFault::Unreadable(message) => e matches ContainerError::ReadCharx(m) && m@
            == message,
    }
}

/// The sum of two numbers, or the greatest number where that is less.
pub open spec fn capped_sum(a: u64, b: int) -> u64 {
    if a + b > u64::MAX {
        u64::MAX
    } else {
        (a + b) as u64
    }
}

/// What has been unpacked of an archive, with the bytes of one more file. The card
/// has a path of its own; books go by their name and other files by their
/// extension.
pub open spec fn with_file(
    done: UnpackedView,
    path: Seq<char>,
    bytes: Seq<u8>,
) -> UnpackedView {
    let after = UnpackedView {
        paths: done.paths.push(path),
        size: (done.size + bytes.len()) as u64,
        ..done
    };
    if path == "card.json"@ {
        UnpackedView { card: Some(bytes), ..after }
    } else if path == "lorebook.json"@ || behind_last(path, '/') == Some("lorebook.json"@) {
        UnpackedView { lorebooks: done.lorebooks.push(bytes), ..after }
    } else if is_media(path) {
        UnpackedView { assets: done.assets.push((path, bytes)), ..after }
    } else {
        after
    }
}

/// What becomes of an entry with a path, behind the entries before it.
pub open spec fn entry_unpacked(
    done: UnpackedView,
    entry: EntryView,
    path: Seq<char>,
    bytes: Result<Seq<u8>, Seq<char>>,
    limit: u64,
) -> Result<UnpackedView, ArchiveFault> {
    if done.paths.contains(path) {
        Err(ArchiveFault::Duplicate(path))
    } else if entry.symlink || (!entry.file && !entry.directory) {
        Err(ArchiveFault::Unsupported(path))
    } else if entry.encrypted {
        Err(ArchiveFault::Encrypted)
    } else if entry.directory {
        Ok(UnpackedView { paths: done.paths.push(path), ..done })
    } else if entry.size > limit - done.size {
        Err(ArchiveFault::TooLarge(capped_sum(done.size, entry.size as int)))
    } else {
        match bytes {
            Err(message) => Err(ArchiveFault::Unreadable(message)),
            Ok(read) => if read.len() > limit - done.size {
                Err(ArchiveFault::TooLarge(capped_sum(done.size, read.len() as int)))
            } else {
                Ok(with_file(done, path, read))
            },
        }
    }
}

/// What becomes of the entry of an archive at a place, behind those before it. One
/// byte more is read than may be.
pub open spec fn place_unpacked(
    done: UnpackedView,
    source: Seq<u8>,
    index: usize,
    enclosed: bool,
    limit: u64,
) -> Result<UnpackedView, ArchiveFault> {
    match archive_entry(source, index) {
        Err(message) => Err(ArchiveFault::Invalid(message)),
        Ok(entry) => match archive_path(entry, enclosed) {
            Err(name) => Err(ArchiveFault::Unsafe(name)),
            Ok(path) => entry_unpacked(
                done,
                entry,
                path,
                archive_bytes(source, index, (limit - done.size + 1) as u64),
                limit,
            ),
        },
    }
}

/// What becomes of the first `count` entries of an archive, where the machine says
/// of each whether its name stays below.
pub open spec fn archive_unpacked(
    source: Seq<u8>,
    count: int,
    enclosed: Seq<bool>,
    limit: u64,
) -> Result<UnpackedView, ArchiveFault>
    decreases count,
{
    if count <= 0 {
        Ok(
            UnpackedView {
                paths: Seq::empty(),
                size: 0,
                card: None,
                lorebooks: Seq::empty(),
                assets: Seq::empty(),
            },
        )
    } else {
        match archive_unpacked(source, count - 1, enclosed, limit) {
            Err(fault) => Err(fault),
            Ok(done) => place_unpacked(
                done,
                source,
                (count - 1) as usize,
                enclosed[count - 1],
                limit,
            ),
        }
    }
}

/// What the machine may say of the names of the first `count` entries of an
/// archive: those that stay below everywhere do so here, and none has a zero in it.
pub open spec fn may_enclose(enclosed: Seq<bool>, source: Seq<u8>, count: int) -> bool {
    &&& enclosed.len() == count
    &&& forall|i: int|
        0 <= i < count ==> (archive_entry(source, i as usize) matches Ok(entry) ==> {
            &&& stays_below(entry.name) ==> #[trigger] enclosed[i]
            &&& entry.name.contains('\0') ==> !enclosed[i]
        })
}

/// What some machine may say of the names of the entries of an archive.
spec fn some_answers(source: Seq<u8>, from: int, count: int) -> Seq<bool> {
    Seq::new(
        (count - from) as nat,
        |i: int|
            archive_entry(source, (from + i) as usize) matches Ok(entry) && stays_below(entry.name),
    )
}

/// The lists of bytes are those of a model.
pub open spec fn are_lorebooks(lorebooks: Seq<Vec<u8>>, expected: Seq<Seq<u8>>) -> bool {
    &&& lorebooks.len() == expected.len()
    &&& forall|i: int| 0 <= i < expected.len() ==> (#[trigger] lorebooks[i])@ == expected[i]
}

/// The pictures and sounds are those of a model.
pub open spec fn are_charx_assets(
    assets: Seq<CharxAsset>,
    expected: Seq<(Seq<char>, Seq<u8>)>,
) -> bool {
    &&& assets.len() == expected.len()
    &&& forall|i: int|
        0 <= i < expected.len() ==> {
            &&& (#[trigger] assets[i]).logical_path@ == expected[i].0
            &&& assets[i].bytes@ == expected[i].1
        }
}

/// What becomes of an archive, where the machine says of each entry whether its
/// name stays below.
pub open spec fn is_archive_outcome(
    r: Result<CharxArchive, ContainerError>,
    source: Seq<u8>,
    enclosed: Seq<bool>,
    limit: u64,
) -> bool {
    match archive_length(source) {
        Err(message) => r matches Err(e) && says_fault(e, ArchiveFault::Invalid(message), limit),
        Ok(count) => match archive_unpacked(source, count as int, enclosed, limit) {
            Err(fault) => r matches Err(e) && says_fault(e, fault, limit),
            Ok(done) => match (r, done.card) {
                (Ok(archive), Some(card)) => {
                    &&& archive.card_json@ == card
                    &&& are_lorebooks(archive.lorebooks@, done.lorebooks)
                    &&& are_charx_assets(archive.assets@, done.assets)
                },
                (Err(e), None) => e is MissingCharxCard,
                _ => false,
            },
        },
    }
}

/// What has been unpacked of an archive.
struct Unpacking {
    pub paths: Vec<String>,
    pub size: u64,
    pub card: Option<Vec<u8>>,
    pub lorebooks: Vec<Vec<u8>>,
    pub assets: Vec<CharxAsset>,
}

impl Unpacking {
    /// What has been unpacked is what a model says.
    spec fn models(self, view: UnpackedView) -> bool {
        &&& views(self.paths@) == view.paths
        &&& self.size == view.size
        &&& match (self.card, view.card) {
            (Some(card), Some(expected)) => card@ == expected,
            (None, None) => true,
            _ => false,
        }
        &&& are_lorebooks(self.lorebooks@, view.lorebooks)
        &&& are_charx_assets(self.assets@, view.assets)
    }

    /// Puts the bytes of a file where they belong.
    fn keep(&mut self, path: String, bytes: Vec<u8>, Ghost(done): Ghost<UnpackedView>)
        requires
            old(self).models(done),
            old(self).size + bytes@.len() <= u64::MAX,
        ensures
            final(self).models(with_file(done, path@, bytes@)),
    {
        proof {
            lemma_views_push(self.paths@, path);
        }
        self.size = self.size + bytes.len() as u64;
        self.paths.push(path.clone());
        if text::same(path.as_str(), "card.json") {
            self.card = Some(bytes);
            return;
        }
        let named = match find_behind_last(path.as_str(), '/') {
            Some(name) => text::same(name.as_str(), "lorebook.json"),
            None => false,
        };
        if named || text::same(path.as_str(), "lorebook.json") {
            self.lorebooks.push(bytes);
        } else if is_media_path(path.as_str()) {
            self.assets.push(CharxAsset { logical_path: path, bytes });
        }
    }
}

proof fn lemma_later_answers(
    source: Seq<u8>,
    count: int,
    enclosed: Seq<bool>,
    answers: Seq<bool>,
    limit: u64,
)
    requires
        count <= enclosed.len(),
    ensures
        archive_unpacked(source, count, enclosed + answers, limit) == archive_unpacked(
            source,
            count,
            enclosed,
            limit,
        ),
    decreases count,
{
    if count > 0 {
        lemma_later_answers(source, count - 1, enclosed, answers, limit);
        assert((enclosed + answers)[count - 1] == enclosed[count - 1]);
    }
}

proof fn lemma_faults_stay(source: Seq<u8>, count: int, total: int, enclosed: Seq<bool>, limit: u64)
    requires
        0 <= count <= total,
        archive_unpacked(source, count, enclosed, limit) is Err,
    ensures
        archive_unpacked(source, total, enclosed, limit) == archive_unpacked(
            source,
            count,
            enclosed,
            limit,
        ),
    decreases total - count,
{
    if count < total {
        lemma_faults_stay(source, count, total - 1, enclosed, limit);
    }
}

/// What the checks of an entry say.
enum Verdict {
    Skip,
    Read,
}

fn judge_entry(
    entry: &ArchiveEntry,
    path: &str,
    done: &Unpacking,
    limit: u64,
    Ghost(view): Ghost<UnpackedView>,
) -> (r: Result<Verdict, ContainerError>)
    requires
        done.models(view),
        done.size <= limit,
    ensures
        forall|bytes: Result<Seq<u8>, Seq<char>>|
            {
                let outcome = #[trigger] entry_unpacked(view, entry@, path@, bytes, limit);
                match r {
                    Err(e) => outcome matches Err(fault) && says_fault(e, fault, limit),
                    Ok(Verdict::Skip) => outcome == Ok::<UnpackedView, ArchiveFault>(
                        UnpackedView { paths: view.paths.push(path@), ..view },
                    ),
                    Ok(Verdict::Read) => outcome == match bytes {
                        Err(message) => Err::<UnpackedView, ArchiveFault>(
                            ArchiveFault::Unreadable(message),
                        ),
                        Ok(read) => if read.len() > limit - view.size {
                            Err(ArchiveFault::TooLarge(capped_sum(view.size, read.len() as int)))
                        } else {
                            Ok(with_file(view, path@, read))
                        },
                    },
                }
            },
{
    if contains_text(&done.paths, path) {
        return Err(ContainerError::DuplicateArchivePath(path.to_owned()));
    }
    if entry.symlink || (!entry.file && !entry.directory) {
        return Err(ContainerError::UnsupportedArchiveEntry(path.to_owned()));
    }
    if entry.encrypted {
        return Err(ContainerError::EncryptedCharx);
    }
    if entry.directory {
        return Ok(Verdict::Skip);
    }
    if entry.size > limit - done.size {
        return Err(
            ContainerError::CharxTooLarge { size: done.size.saturating_add(entry.size), limit },
        );
    }
    Ok(Verdict::Read)
}

fn unpack_entry(
    done: &mut Unpacking,
    source: &Vec<u8>,
    index: usize,
    entry: ArchiveEntry,
    limit: u64,
    Ghost(view): Ghost<UnpackedView>,
) -> (r: Result<(), ContainerError>)
    requires
        old(done).models(view),
        old(done).size <= limit < u64::MAX,
        archive_entry(source@, index) == Ok::<EntryView, Seq<char>>(entry@),
    ensures
        match (r, place_unpacked(view, source@, index, entry.enclosed, limit)) {
            (Ok(()), Ok(after)) => final(done).models(after) && final(done).size <= limit,
            (Err(e), Err(fault)) => says_fault(e, fault, limit),
            _ => false,
        },
{
    let path = match safe_archive_path(&entry) {
        Ok(path) => path,
        Err(e) => return Err(e),
    };
    let remaining: u64 = limit - done.size;
    let ghost unread = archive_bytes(source@, index, (remaining + 1) as u64);
    proof {
        assert(place_unpacked(view, source@, index, entry.enclosed, limit) == entry_unpacked(
            view,
            entry@,
            path@,
            unread,
            limit,
        ));
    }
    match judge_entry(&entry, path.as_str(), done, limit, Ghost(view)) {
        Err(e) => return Err(e),
        Ok(Verdict::Skip) => {
            proof {
                lemma_views_push(done.paths@, path);
            }
            done.paths.push(path);
            return Ok(());
        },
        Ok(Verdict::Read) => {},
    }
    let bytes = match read_entry(source.as_slice(), index, remaining + 1) {
        Ok(bytes) => bytes,
        Err(message) => return Err(ContainerError::ReadCharx(message)),
    };
    let length: u64 = bytes.len() as u64;
    if length > remaining {
        return Err(ContainerError::CharxTooLarge { size: done.size.saturating_add(length), limit });
    }
    done.keep(path, bytes, Ghost(view));
    Ok(())
}

fn unpack_entries(source: &Vec<u8>, count: usize, limit: u64) -> (r: (
    Result<Unpacking, ContainerError>,
    Ghost<Seq<bool>>,
))
    requires
        limit < u64::MAX,
    ensures
        match (r.0, archive_unpacked(source@, count as int, r.1@, limit)) {
            (Ok(done), Ok(view)) => done.models(view),
            (Err(e), Err(fault)) => says_fault(e, fault, limit),
            _ => false,
        },
        may_enclose(r.1@, source@, count as int),
{
    let mut done = Unpacking {
        paths: Vec::new(),
        size: 0,
        card: None,
        lorebooks: Vec::new(),
        assets: Vec::new(),
    };
    let ghost mut enclosed = Seq::<bool>::empty();
    let mut index: usize = 0;
    proof {
        assert(views(done.paths@) =~= Seq::<Seq<char>>::empty());
    }
    while index < count
        invariant
            index <= count,
            may_enclose(enclosed, source@, index as int),
            limit < u64::MAX,
            done.size <= limit,
            archive_unpacked(source@, index as int, enclosed, limit) matches Ok(view)
                && done.models(view),
        decreases count - index,
    {
        let ghost view = archive_unpacked(source@, index as int, enclosed, limit)->Ok_0;
        let opened = open_entry(source.as_slice(), index);
        let ghost answer = opened is Ok && opened->Ok_0.enclosed;
        proof {
            lemma_later_answers(source@, index as int, enclosed, seq![answer], limit);
            assert(enclosed + seq![answer] =~= enclosed.push(answer));
            assert forall|i: int| 0 <= i < index implies #[trigger] enclosed.push(answer)[i]
                == enclosed[i] by {}
            enclosed = enclosed.push(answer);
            assert(archive_unpacked(source@, index + 1, enclosed, limit) == place_unpacked(
                view,
                source@,
                index,
                answer,
                limit,
            ));
        }
        let ghost whole = enclosed + some_answers(source@, index + 1, count as int);
        proof {
            lemma_later_answers(
                source@,
                index + 1,
                enclosed,
                some_answers(source@, index + 1, count as int),
                limit,
            );
            assert(may_enclose(whole, source@, count as int)) by {
                assert forall|i: int| 0 <= i < count implies (archive_entry(
                    source@,
                    i as usize,
                ) matches Ok(entry) ==> {
                    &&& stays_below(entry.name) ==> #[trigger] whole[i]
                    &&& entry.name.contains('\0') ==> !whole[i]
                }) by {
                    if i < index + 1 {
                        assert(whole[i] == enclosed[i]);
                    }
                }
            }
            if archive_unpacked(source@, index + 1, whole, limit) is Err {
                lemma_faults_stay(source@, index + 1, count as int, whole, limit);
            }
        }
        let entry = match opened {
            Ok(entry) => entry,
            Err(message) => return (Err(ContainerError::InvalidCharx(message)), Ghost(whole)),
        };
        match unpack_entry(&mut done, source, index, entry, limit, Ghost(view)) {
            Ok(()) => {},
            Err(e) => return (Err(e), Ghost(whole)),
        }
        index = index + 1;
    }
    (Ok(done), Ghost(enclosed))
}

/// What an archive holds of a character. No more than a limit is unpacked.
pub fn extract_charx(source: &Vec<u8>, limit: u64) -> (r: Result<CharxArchive, ContainerError>)
    requires
        limit < u64::MAX,
    ensures
        exists|enclosed: Seq<bool>|
            {
                &&& #[trigger] is_archive_outcome(r, source@, enclosed, limit)
                &&& archive_length(source@) matches Ok(count) ==> may_enclose(
                    enclosed,
                    source@,
                    count as int,
                )
            },
{
    let count: usize = match count_entries(source.as_slice()) {
        Ok(count) => count,
        Err(message) => {
            let r: Result<CharxArchive, ContainerError> = Err(ContainerError::InvalidCharx(message));
            proof {
                assert(is_archive_outcome(r, source@, Seq::empty(), limit));
            }
            return r;
        },
    };
    let (outcome, answers) = unpack_entries(source, count, limit);
    let ghost enclosed = answers@;
    let r: Result<CharxArchive, ContainerError> = match outcome {
        Err(e) => Err(e),
        Ok(done) => match done.card {
            None => Err(ContainerError::MissingCharxCard),
            Some(card_json) => Ok(
                CharxArchive { card_json, lorebooks: done.lorebooks, assets: done.assets },
            ),
        },
    };
    proof {
        assert(is_archive_outcome(r, source@, enclosed, limit));
    }
    r
}

/// Whatever the machine says of names, what is unpacked of an archive stays below
/// the place that it is unpacked to, no two entries have one path, and no more is
/// unpacked than the limit.
pub proof fn law_unpacked_paths_are_safe(
    source: Seq<u8>,
    count: int,
    enclosed: Seq<bool>,
    limit: u64,
)
    requires
        archive_unpacked(source, count, enclosed, limit) is Ok,
    ensures
        archive_unpacked(source, count, enclosed, limit)->Ok_0.size <= limit,
        archive_unpacked(source, count, enclosed, limit)->Ok_0.paths.no_duplicates(),
        forall|i: int|
            0 <= i < archive_unpacked(source, count, enclosed, limit)->Ok_0.paths.len() ==> {
                let path = #[trigger] archive_unpacked(
                    source,
                    count,
                    enclosed,
                    limit,
                )->Ok_0.paths[i];
                steps_down(path, 0) && !path.contains('\\')
            },
    decreases count,
{
    if count > 0 {
        law_unpacked_paths_are_safe(source, count - 1, enclosed, limit);
    }
}

/// Of an archive whose names all stay below everywhere, every machine unpacks the
/// same: no name is refused for what the machine says of it.
pub proof fn law_ordinary_archives_unpack_alike(
    source: Seq<u8>,
    count: int,
    total: int,
    enclosed: Seq<bool>,
    limit: u64,
)
    requires
        0 <= count <= total,
        may_enclose(enclosed, source, total),
        forall|i: int|
            0 <= i < total ==> (#[trigger] archive_entry(source, i as usize) matches Ok(entry)
                ==> stays_below(entry.name)),
    ensures
        archive_unpacked(source, count, enclosed, limit) == archive_unpacked(
            source,
            count,
            Seq::new(total as nat, |i: int| true),
            limit,
        ),
    decreases count,
{
    if count > 0 {
        law_ordinary_archives_unpack_alike(source, count - 1, total, enclosed, limit);
        assert(archive_entry(source, (count - 1) as usize) is Ok ==> enclosed[count - 1]);
    }
}

} // verus!
