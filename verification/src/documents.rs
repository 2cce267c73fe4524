//! Importing documents: which file formats are read, and the text inside a Word
//! document.

use std::io::Cursor;
use std::io::Read;

use vstd::prelude::*;
use vstd::utf8::is_ascii_chars;
use zip::ZipArchive;

use crate::text::{
    all_of, ascii_lower, begins, is_blank, is_white, is_whitespace,
    law_trim_leaves_what_stands_between, lemma_occurs_last, lemma_occurs_left, occurs, outcome_of,
    same, starts_with, stripped, text_in,
    to_chars, trim_white, CharClass,
};
use crate::unicode::{lower_text, to_lowercase};

verus! {

// ---------------------------------------------------------------------------
// File formats
// ---------------------------------------------------------------------------

/// How a document is read.
#[derive(Clone, Copy, PartialEq, Eq, Structural, Debug)]
pub enum DocumentKind {
    Pdf,
    Text,
    Docx,
}

/// The kind of document behind a file extension in lower case.
pub open spec fn kind_named(extension: Seq<char>) -> Option<DocumentKind> {
    if extension == "pdf"@ {
        Some(DocumentKind::Pdf)
    } else if extension == "txt"@ || extension == "md"@ || extension == "rtf"@ {
        Some(DocumentKind::Text)
    } else if extension == "docx"@ {
        Some(DocumentKind::Docx)
    } else {
        None
    }
}

/// What is said of a file extension that is not read.
pub open spec fn unsupported(extension: Seq<char>) -> Seq<char> {
    "Unsupported file format: "@ + extension + ". Supported formats: PDF, TXT, MD, RTF, DOCX"@
}

/// The extension a file is judged by: none is as good as an empty one.
pub open spec fn extension_text(extension: Option<Seq<char>>) -> Seq<char> {
    match extension {
        Some(e) => lower_text(e),
        None => Seq::empty(),
    }
}

/// The kind of document behind a file extension in lower case, or what is wrong
/// with it.
pub fn document_kind_of(extension: &str) -> (r: Result<DocumentKind, String>)
    ensures
        match r {
            Ok(kind) => kind_named(extension@) == Some(kind),
            Err(e) => kind_named(extension@) is None && e@ == unsupported(extension@),
        },
{
    if same(extension, "pdf") {
        Ok(DocumentKind::Pdf)
    } else if same(extension, "txt") || same(extension, "md") || same(extension, "rtf") {
        Ok(DocumentKind::Text)
    } else if same(extension, "docx") {
        Ok(DocumentKind::Docx)
    } else {
        let mut e = "Unsupported file format: ".to_owned();
        e.append(extension);
        e.append(". Supported formats: PDF, TXT, MD, RTF, DOCX");
        Err(e)
    }
}

/// The kind of document behind a file's extension, whatever its case, or what is
/// wrong with it.
pub fn document_kind(extension: &Option<String>) -> (r: Result<DocumentKind, String>)
    ensures
        ({
            let e = extension_text(text_in(*extension));
            match r {
                Ok(kind) => kind_named(e) == Some(kind),
                Err(message) => kind_named(e) is None && message@ == unsupported(e),
            }
        }),
{
    let lowered = match extension {
        Some(e) => to_lowercase(e.as_str()),
        None => String::new(),
    };
    document_kind_of(lowered.as_str())
}

/// What is said of a file that is not there.
pub fn file_not_found(path: &str) -> (r: String)
    ensures
        r@ == "File not found: "@ + path@,
{
    let mut r = "File not found: ".to_owned();
    r.append(path);
    r
}

/// What came of reading a text file: its content, or what is wrong.
pub fn text_file(read: Result<String, String>) -> (r: Result<String, String>)
    ensures
        outcome_of(r) == match outcome_of(read) {
            Ok(content) => Ok::<Seq<char>, Seq<char>>(content),
            Err(e) => Err("Failed to read text file: "@ + e),
        },
{
    match read {
        Ok(content) => Ok(content),
        Err(e) => {
            let mut r = "Failed to read text file: ".to_owned();
            r.append(e.as_str());
            Err(r)
        },
    }
}

/// What came of reading a PDF.
pub open spec fn pdf_outcome(extracted: Result<Seq<char>, Seq<char>>) -> Result<
    Seq<char>,
    Seq<char>,
> {
    match extracted {
        Ok(text) => if stripped(text).len() == 0 {
            Err("PDF appears to be empty or contains only images/non-text content"@)
        } else {
            Ok(text)
        },
        Err(e) => Err(
            "Failed to extract text from PDF: "@ + e
                + ". Make sure the PDF contains text (not just images)."@,
        ),
    }
}

/// What came of reading a PDF: its text, or what is wrong.
pub fn pdf_text(extracted: Result<String, String>) -> (r: Result<String, String>)
    ensures
        outcome_of(r) == pdf_outcome(outcome_of(extracted)),
{
    match extracted {
        Ok(text) => if is_blank(text.as_str()) {
            Err("PDF appears to be empty or contains only images/non-text content".to_owned())
        } else {
            Ok(text)
        },
        Err(e) => {
            let mut r = "Failed to extract text from PDF: ".to_owned();
            r.append(e.as_str());
            r.append(". Make sure the PDF contains text (not just images).");
            Err(r)
        },
    }
}

// ---------------------------------------------------------------------------
// The text of a Word document
// ---------------------------------------------------------------------------

/// How far the markup of a document has been read.
#[verifier::ext_equal]
pub struct Scan {
    /// The text that was found.
    pub out: Seq<char>,
    /// Text that is found once its element goes on with markup.
    pub current: Seq<char>,
    /// The tag that was read last, or is being read.
    pub tag: Seq<char>,
    /// Whether the place is inside a tag.
    pub in_tag: bool,
    /// Whether the place is inside a text element.
    pub in_text: bool,
}

/// Before anything was read.
pub open spec fn scan_start() -> Scan {
    Scan {
        out: Seq::empty(),
        current: Seq::empty(),
        tag: Seq::empty(),
        in_tag: false,
        in_text: false,
    }
}

/// Whether a tag opens a text element: its name stands alone, or white space and
/// whatever follows it stand behind.
pub open spec fn opens_text(tag: Seq<char>) -> bool {
    tag == "w:t"@ || (begins(tag, "w:t"@) && tag.len() > 3 && is_white(tag[3]))
}

fn is_text_opening(tag: &str) -> (r: bool)
    ensures
        r == opens_text(tag@),
{
    if !starts_with(tag, "w:t") {
        proof {
            assert("w:t"@.take("w:t"@.len() as int) =~= "w:t"@);
        }
        return false;
    }
    proof {
        reveal_strlit("w:t");
    }
    let chars = to_chars(tag);
    if chars.len() == 3 {
        assert(tag@.take(3) =~= tag@);
        return true;
    }
    is_whitespace(chars[3])
}

/// The place after a tag was read: a text element opens or closes, or a paragraph
/// ends.
pub open spec fn tag_read(s: Scan) -> Scan {
    if opens_text(s.tag) {
        Scan { in_tag: false, in_text: true, ..s }
    } else if s.tag == "/w:t"@ {
        Scan { in_tag: false, in_text: false, ..s }
    } else if s.tag == "/w:p"@ {
        Scan { in_tag: false, out: s.out.push('\n'), ..s }
    } else {
        Scan { in_tag: false, ..s }
    }
}

/// The place after one more character.
pub open spec fn scan_step(s: Scan, c: char) -> Scan {
    if c == '<' {
        if s.in_text {
            Scan {
                out: s.out + s.current,
                current: Seq::empty(),
                tag: Seq::empty(),
                in_tag: true,
                ..s
            }
        } else {
            Scan { tag: Seq::empty(), in_tag: true, ..s }
        }
    } else if s.in_tag {
        if c == '>' {
            tag_read(s)
        } else {
            Scan { tag: s.tag.push(c), ..s }
        }
    } else if s.in_text {
        Scan { current: s.current.push(c), ..s }
    } else {
        s
    }
}

/// The place after more characters.
pub open spec fn scanned(s: Scan, xml: Seq<char>) -> Scan
    decreases xml.len(),
{
    if xml.len() == 0 {
        s
    } else {
        scan_step(scanned(s, xml.drop_last()), xml.last())
    }
}

/// What came of reading the markup of a document.
pub open spec fn markup_outcome(xml: Seq<char>) -> Result<Seq<char>, Seq<char>> {
    let text = stripped(scanned(scan_start(), xml).out);
    if text.len() == 0 {
        Err("DOCX file appears to be empty or could not be parsed"@)
    } else {
        Ok(text)
    }
}

/// The text inside the markup of a Word document.
pub fn document_text(xml: &str) -> (r: Result<String, String>)
    ensures
        outcome_of(r) == markup_outcome(xml@),
{
    let mut out = String::new();
    let mut current = String::new();
    let mut tag = String::new();
    let mut in_tag = false;
    let mut in_text = false;
    for c in it: xml.chars()
        invariant
            it.seq() == xml@,
            scanned(scan_start(), xml@.take(it.index() as int)) == (Scan {
                out: out@,
                current: current@,
                tag: tag@,
                in_tag,
                in_text,
            }),
    {
        let ghost seen = xml@.take(it.index() + 1);
        assert(seen.drop_last() == xml@.take(it.index() as int));
        assert(seen.last() == c);
        if c == '<' {
            in_tag = true;
            tag = String::new();
            if in_text {
                out.append(current.as_str());
                current = String::new();
            }
        } else if in_tag {
            if c != '>' {
                tag.push(c);
            } else {
                in_tag = false;
                if is_text_opening(tag.as_str()) {
                    in_text = true;
                } else if same(tag.as_str(), "/w:t") {
                    in_text = false;
                } else if same(tag.as_str(), "/w:p") {
                    out.push('\n');
                }
            }
        } else if in_text {
            current.push(c);
        }
    }
    assert(xml@.take(xml@.len() as int) == xml@);
    let text = trim_white(out.as_str());
    if text.as_str().is_empty() {
        Err("DOCX file appears to be empty or could not be parsed".to_owned())
    } else {
        Ok(text)
    }
}

// ---------------------------------------------------------------------------
// The archive around it
// ---------------------------------------------------------------------------

/// An opened zip archive, which only the `zip` crate looks into.
#[verifier::external_type_specification]
#[verifier::external_body]
#[verifier::reject_recursive_types(R)]
pub struct ExZipArchive<R>(zip::ZipArchive<R>);

/// A reader over bytes in memory.
#[verifier::external_type_specification]
#[verifier::external_body]
#[verifier::reject_recursive_types(T)]
pub struct ExCursor<T>(std::io::Cursor<T>);

/// The bytes that an archive was opened on.
pub uninterp spec fn archive_bytes(archive: ZipArchive<Cursor<Vec<u8>>>) -> Seq<u8>;

/// What is wrong with bytes that cannot be opened as an archive.
pub uninterp spec fn opening_failure(bytes: Seq<u8>) -> Option<Seq<char>>;

/// How many members the archive in these bytes lists.
pub uninterp spec fn member_count(bytes: Seq<u8>) -> usize;

/// Of a member of the archive in these bytes, where the member is found: its name,
/// its extra field, and where its entry in the central directory begins.
pub uninterp spec fn member_entry(bytes: Seq<u8>, index: usize) -> Option<
    (Seq<char>, Seq<u8>, u64),
>;

/// The text of a member of the archive in these bytes.
pub uninterp spec fn member_text(bytes: Seq<u8>, name: Seq<char>) -> Member<Seq<char>>;

/// A member of an archive that was looked for by its name and read as text.
#[derive(Debug)]
pub enum Member<S> {
    /// It is not there, or cannot be opened.
    Missing,
    /// It cannot be read, and why.
    Unreadable(S),
    /// It was read.
    Content(S),
}

/// What is known of a member that was read.
pub open spec fn member_view(m: Member<String>) -> Member<Seq<char>> {
    match m {
        Member::Missing => Member::Missing,
        Member::Unreadable(e) => Member::Unreadable(e@),
        Member::Content(text) => Member::Content(text@),
    }
}

/// What is known of a member's entry.
pub open spec fn entry_view(e: Option<(String, Vec<u8>, u64)>) -> Option<
    (Seq<char>, Seq<u8>, u64),
> {
    match e {
        Some((name, extra, header)) => Some((name@, extra@, header)),
        None => None,
    }
}

/// The number in two bytes, the lower one first.
pub open spec fn le16(bytes: Seq<u8>, at: int) -> nat {
    bytes[at] as nat + bytes[at + 1] as nat * 0x100
}

/// The number in four bytes, the lowest first.
pub open spec fn le32(bytes: Seq<u8>, at: int) -> nat {
    le16(bytes, at) + le16(bytes, at + 2) * 0x1_0000
}

/// The number in eight bytes, the lowest first.
pub open spec fn le64(bytes: Seq<u8>, at: int) -> nat {
    le32(bytes, at) + le32(bytes, at + 4) * 0x1_0000_0000
}

/// The fields of an entry that may be too narrow for their number. One that is full
/// stands for a wider one in the extra field.
#[verifier::ext_equal]
pub struct NarrowFields {
    pub size: nat,
    pub packed_size: nat,
    pub place: nat,
}

/// A field and the place behind it, once the wider one was read where the field is
/// full: nothing where the extra field ends before.
pub open spec fn widened(extra: Seq<u8>, at: int, field: nat) -> Option<(nat, int)> {
    if field != 0xffff_ffff {
        Some((field, at))
    } else if at + 8 <= extra.len() {
        Some((le64(extra, at), at + 8))
    } else {
        None
    }
}

/// The fields and the place behind them, once the wider ones were read.
pub open spec fn all_widened(extra: Seq<u8>, at: int, f: NarrowFields) -> Option<
    (NarrowFields, int),
> {
    match widened(extra, at, f.size) {
        Some((size, at)) => match widened(extra, at, f.packed_size) {
            Some((packed_size, at)) => match widened(extra, at, f.place) {
                Some((place, at)) => Some((NarrowFields { size, packed_size, place }, at)),
                None => None,
            },
            None => None,
        },
        None => None,
    }
}

/// Whether one of the records of an extra field, from a place on, says that the
/// member is encrypted with AES. A record is a kind, a length and that many bytes.
/// One that widens fields goes on until they are read.
pub open spec fn says_aes(extra: Seq<u8>, at: int, f: NarrowFields) -> bool
    decreases
        (if at < extra.len() {
            extra.len() - at
        } else {
            0
        }),
{
    if at < 0 || at + 4 > extra.len() {
        false
    } else {
        let kind = le16(extra, at);
        let end = at + 4 + le16(extra, at + 2);
        if kind == 0x9901 {
            end == at + 11 && end <= extra.len()
        } else if kind == 0x0001 {
            match all_widened(extra, at + 4, f) {
                Some((f, read)) => says_aes(
                    extra,
                    if end > read {
                        end
                    } else {
                        read
                    },
                    f,
                ),
                None => false,
            }
        } else {
            says_aes(extra, end, f)
        }
    }
}

/// Whether an entry contradicts itself: its extra field says that the member is
/// encrypted with AES, and its flags that it is not encrypted.
pub open spec fn contradicts_itself(bytes: Seq<u8>, extra: Seq<u8>, header: u64) -> bool {
    &&& header + 46 <= bytes.len()
    &&& le16(bytes, header + 8) % 2 == 0
    &&& says_aes(
        extra,
        0,
        NarrowFields {
            size: le32(bytes, header + 24),
            packed_size: le32(bytes, header + 20),
            place: le32(bytes, header + 42),
        },
    )
}

/// The last of the first `n` members that has a name, which is the one that the name
/// stands for.
pub open spec fn last_named(bytes: Seq<u8>, name: Seq<char>, n: nat) -> Option<(Seq<u8>, u64)>
    decreases n,
{
    if n == 0 {
        None
    } else {
        match member_entry(bytes, (n - 1) as usize) {
            Some((own, extra, header)) if own == name => Some((extra, header)),
            _ => last_named(bytes, name, (n - 1) as nat),
        }
    }
}

/// Whether the member that a name stands for has an entry that contradicts itself.
pub open spec fn mislabelled(bytes: Seq<u8>, name: Seq<char>) -> bool {
    match last_named(bytes, name, member_count(bytes) as nat) {
        Some((extra, header)) => contradicts_itself(bytes, extra, header),
        None => false,
    }
}

/// `ZipArchive::new` opens bytes as an archive, or says what is wrong with them.
/// The message is that of the error's `Display`. Nothing is claimed of which bytes
/// can be opened but that it depends on the bytes alone.
#[verifier::external_body]
fn open_archive(bytes: Vec<u8>) -> (r: Result<ZipArchive<Cursor<Vec<u8>>>, String>)
    ensures
        match r {
            Ok(archive) => opening_failure(bytes@) is None && archive_bytes(archive) == bytes@,
            Err(e) => opening_failure(bytes@) == Some(e@),
        },
{
    match ZipArchive::new(Cursor::new(bytes)) {
        Ok(archive) => Ok(archive),
        Err(e) => Err(e.to_string()),
    }
}

/// `ZipArchive::len` counts the members that an archive lists. Nothing is claimed
/// of the count but that it depends on the archive's bytes alone.
#[verifier::external_body]
fn count_members(archive: &ZipArchive<Cursor<Vec<u8>>>) -> (r: usize)
    ensures
        r == member_count(archive_bytes(*archive)),
{
    archive.len()
}

/// `ZipArchive::by_index_raw` finds a member without unpacking it, and
/// `ZipFile::name`, `ZipFile::extra_data` and `ZipFile::central_header_start` give
/// its name, its extra field, and where its entry in the central directory begins.
/// Nothing is claimed of them but that they depend on the archive's bytes and the
/// index alone. The archive is left on the same bytes.
#[verifier::external_body]
fn look_at_member(archive: &mut ZipArchive<Cursor<Vec<u8>>>, index: usize) -> (r: Option<
    (String, Vec<u8>, u64),
>)
    ensures
        entry_view(r) == member_entry(archive_bytes(*old(archive)), index),
        archive_bytes(*final(archive)) == archive_bytes(*old(archive)),
{
    match archive.by_index_raw(index) {
        Ok(m) => Some((m.name().to_string(), m.extra_data().to_vec(), m.central_header_start())),
        Err(_) => None,
    }
}

/// `ZipArchive::by_name` finds the last member with a name, and
/// `Read::read_to_string` unpacks it. Nothing is claimed of what comes of it but that
/// it depends on the archive's bytes and the name alone: a member is missing where
/// `by_name` gives an error, and otherwise it is read, or the error's `Display` says
/// why not. `by_name` panics on a member whose extra field sets an AES mode while its
/// flags do not say that it is encrypted, which is why the member may not be
/// mislabelled. The archive is left on the same bytes.
#[verifier::external_body]
fn read_member(archive: &mut ZipArchive<Cursor<Vec<u8>>>, name: &str) -> (r: Member<String>)
    requires
        !mislabelled(archive_bytes(*old(archive)), name@),
    ensures
        member_view(r) == member_text(archive_bytes(*old(archive)), name@),
        archive_bytes(*final(archive)) == archive_bytes(*old(archive)),
{
    match archive.by_name(name) {
        Ok(mut member) => {
            let mut text = String::new();
            match member.read_to_string(&mut text) {
                Ok(_) => Member::Content(text),
                Err(e) => Member::Unreadable(e.to_string()),
            }
        },
        Err(_) => Member::Missing,
    }
}

fn read_le16(bytes: &Vec<u8>, at: usize) -> (r: u64)
    requires
        at + 2 <= bytes.len(),
    ensures
        r == le16(bytes@, at as int),
        r <= 0xffff,
{
    bytes[at] as u64 + bytes[at + 1] as u64 * 0x100
}

fn read_le32(bytes: &Vec<u8>, at: usize) -> (r: u64)
    requires
        at + 4 <= bytes.len(),
    ensures
        r == le32(bytes@, at as int),
        r <= 0xffff_ffff,
{
    read_le16(bytes, at) + read_le16(bytes, at + 2) * 0x1_0000
}

fn read_le64(bytes: &Vec<u8>, at: usize) -> (r: u64)
    requires
        at + 8 <= bytes.len(),
    ensures
        r == le64(bytes@, at as int),
{
    read_le32(bytes, at) + read_le32(bytes, at + 4) * 0x1_0000_0000
}

fn read_widened(extra: &Vec<u8>, at: usize, field: u64) -> (r: Option<(u64, usize)>)
    requires
        at <= extra.len(),
    ensures
        match r {
            Some((value, next)) => widened(extra@, at as int, field as nat) == Some(
                (value as nat, next as int),
            ) && at <= next <= extra.len(),
            None => widened(extra@, at as int, field as nat) is None,
        },
{
    if field != 0xffff_ffff {
        Some((field, at))
    } else if extra.len() - at >= 8 {
        Some((read_le64(extra, at), at + 8))
    } else {
        None
    }
}

fn has_aes_record(extra: &Vec<u8>, size: u64, packed_size: u64, place: u64) -> (r: bool)
    ensures
        r == says_aes(
            extra@,
            0,
            NarrowFields {
                size: size as nat,
                packed_size: packed_size as nat,
                place: place as nat,
            },
        ),
{
    let mut at: usize = 0;
    let mut now_size: u64 = size;
    let mut now_packed: u64 = packed_size;
    let mut now_place: u64 = place;
    while extra.len() - at >= 4
        invariant
            at <= extra.len(),
            says_aes(
                extra@,
                0,
                NarrowFields {
                    size: size as nat,
                    packed_size: packed_size as nat,
                    place: place as nat,
                },
            ) == says_aes(
                extra@,
                at as int,
                NarrowFields {
                    size: now_size as nat,
                    packed_size: now_packed as nat,
                    place: now_place as nat,
                },
            ),
        decreases extra.len() - at,
    {
        let kind: u64 = read_le16(extra, at);
        let len: u64 = read_le16(extra, at + 2);
        let body: usize = at + 4;
        let room: usize = extra.len() - body;
        if kind == 0x9901 {
            return len == 7 && room >= 7;
        }
        let mut read: usize = body;
        if kind == 0x0001 {
            match read_widened(extra, read, now_size) {
                Some((value, next)) => {
                    now_size = value;
                    read = next;
                },
                None => {
                    return false;
                },
            }
            match read_widened(extra, read, now_packed) {
                Some((value, next)) => {
                    now_packed = value;
                    read = next;
                },
                None => {
                    return false;
                },
            }
            match read_widened(extra, read, now_place) {
                Some((value, next)) => {
                    now_place = value;
                    read = next;
                },
                None => {
                    return false;
                },
            }
        }
        if len > room as u64 {
            proof {
                reveal_with_fuel(says_aes, 2);
            }
            return false;
        }
        let end: usize = body + len as usize;
        at = if end > read {
            end
        } else {
            read
        };
    }
    false
}

fn entry_contradicts_itself(bytes: &Vec<u8>, extra: &Vec<u8>, header: u64) -> (r: bool)
    ensures
        r == contradicts_itself(bytes@, extra@, header),
{
    if bytes.len() < 46 || header > (bytes.len() - 46) as u64 {
        return false;
    }
    let h: usize = header as usize;
    let flags: u64 = read_le16(bytes, h + 8);
    let size: u64 = read_le32(bytes, h + 24);
    let packed_size: u64 = read_le32(bytes, h + 20);
    let place: u64 = read_le32(bytes, h + 42);
    flags % 2 == 0 && has_aes_record(extra, size, packed_size, place)
}

fn is_mislabelled(
    archive: &mut ZipArchive<Cursor<Vec<u8>>>,
    bytes: &Vec<u8>,
    name: &str,
) -> (r: bool)
    requires
        archive_bytes(*old(archive)) == bytes@,
    ensures
        r == mislabelled(bytes@, name@),
        archive_bytes(*final(archive)) == bytes@,
{
    let count: usize = count_members(archive);
    let mut n: usize = count;
    while n > 0
        invariant
            archive_bytes(*archive) == bytes@,
            n <= count,
            count == member_count(bytes@),
            last_named(bytes@, name@, count as nat) == last_named(bytes@, name@, n as nat),
        decreases n,
    {
        n = n - 1;
        match look_at_member(archive, n) {
            Some((own, extra, header)) => {
                if same(own.as_str(), name) {
                    return entry_contradicts_itself(bytes, &extra, header);
                }
            },
            None => {},
        }
    }
    false
}

/// What came of reading a Word document: what is wrong with its bytes as an
/// archive, whether its main part is mislabelled, and what came of reading that.
pub open spec fn docx_outcome(
    failure: Option<Seq<char>>,
    mislabelled: bool,
    part: Member<Seq<char>>,
) -> Result<Seq<char>, Seq<char>> {
    match failure {
        Some(e) => Err("Failed to open DOCX archive: "@ + e),
        None => if mislabelled {
            Err("DOCX file does not contain document.xml"@)
        } else {
            match part {
                Member::Missing => Err("DOCX file does not contain document.xml"@),
                Member::Unreadable(e) => Err("Failed to read document.xml: "@ + e),
                Member::Content(xml) => markup_outcome(xml),
            }
        },
    }
}

/// The text of a Word document, given what came of opening it and of reading its
/// main part.
pub fn docx_text(failure: Option<String>, mislabelled: bool, part: Member<String>) -> (r: Result<
    String,
    String,
>)
    ensures
        outcome_of(r) == docx_outcome(text_in(failure), mislabelled, member_view(part)),
{
    match failure {
        Some(e) => {
            let mut r = "Failed to open DOCX archive: ".to_owned();
            r.append(e.as_str());
            return Err(r);
        },
        None => {},
    }
    if mislabelled {
        return Err("DOCX file does not contain document.xml".to_owned());
    }
    match part {
        Member::Missing => Err("DOCX file does not contain document.xml".to_owned()),
        Member::Unreadable(e) => {
            let mut r = "Failed to read document.xml: ".to_owned();
            r.append(e.as_str());
            Err(r)
        },
        Member::Content(xml) => document_text(xml.as_str()),
    }
}

/// The text of a Word document, or what is wrong with it. A Word document is a zip
/// archive whose main part is `word/document.xml`; one whose entry contradicts itself
/// cannot be read and counts as missing.
pub fn extract_text_from_docx(bytes: Vec<u8>) -> (r: Result<String, String>)
    ensures
        outcome_of(r) == docx_outcome(
            opening_failure(bytes@),
            mislabelled(bytes@, "word/document.xml"@),
            member_text(bytes@, "word/document.xml"@),
        ),
{
    let copy = bytes.clone();
    assert(copy@ =~= bytes@);
    match open_archive(copy) {
        Ok(archive) => {
            let mut archive = archive;
            if is_mislabelled(&mut archive, &bytes, "word/document.xml") {
                return docx_text(None, true, Member::Missing);
            }
            let part = read_member(&mut archive, "word/document.xml");
            docx_text(None, false, part)
        },
        Err(e) => docx_text(Some(e), false, Member::Missing),
    }
}

/// What came of importing a Word document from a file: what is said where the file
/// cannot be read, and otherwise what its bytes give.
pub fn import_docx(read: Result<Vec<u8>, String>) -> (r: Result<String, String>)
    ensures
        outcome_of(r) == match read {
            Ok(bytes) => docx_outcome(
                opening_failure(bytes@),
                mislabelled(bytes@, "word/document.xml"@),
                member_text(bytes@, "word/document.xml"@),
            ),
            Err(e) => Err("Failed to read DOCX file: "@ + e@),
        },
{
    match read {
        Ok(bytes) => extract_text_from_docx(bytes),
        Err(e) => {
            let mut r = "Failed to read DOCX file: ".to_owned();
            r.append(e.as_str());
            Err(r)
        },
    }
}

// ---------------------------------------------------------------------------
// Laws
// ---------------------------------------------------------------------------

/// A piece of markup: a tag without its brackets, or text between tags.
#[verifier::ext_equal]
pub enum Piece {
    Tag(Seq<char>),
    Text(Seq<char>),
}

/// Whether a text holds no bracket.
pub open spec fn no_brackets(t: Seq<char>) -> bool {
    forall|i: int| 0 <= i < t.len() ==> #[trigger] t[i] != '<' && t[i] != '>'
}

/// Whether a text holds no opening bracket.
pub open spec fn no_opening(t: Seq<char>) -> bool {
    forall|i: int| 0 <= i < t.len() ==> #[trigger] t[i] != '<'
}

/// Whether a piece ends where it says: a tag holds no bracket of its own, and a text
/// no opening one.
pub open spec fn piece_is_plain(p: Piece) -> bool {
    match p {
        Piece::Tag(t) => no_brackets(t),
        Piece::Text(t) => no_opening(t),
    }
}

/// A piece as it stands in a document.
pub open spec fn piece_markup(p: Piece) -> Seq<char> {
    match p {
        Piece::Tag(t) => seq!['<'] + t + seq!['>'],
        Piece::Text(t) => t,
    }
}

/// Pieces as they stand in a document.
pub open spec fn markup_of(pieces: Seq<Piece>) -> Seq<char>
    decreases pieces.len(),
{
    if pieces.len() == 0 {
        Seq::empty()
    } else {
        markup_of(pieces.drop_last()) + piece_markup(pieces.last())
    }
}

/// Whether the place after some pieces is inside a text element.
pub open spec fn inside_text(pieces: Seq<Piece>) -> bool
    decreases pieces.len(),
{
    if pieces.len() == 0 {
        false
    } else {
        match pieces.last() {
            Piece::Tag(t) => opens_text(t) || (t != "/w:t"@ && inside_text(pieces.drop_last())),
            Piece::Text(t) => inside_text(pieces.drop_last()),
        }
    }
}

/// The text in some pieces: what stands inside text elements, with a line break at
/// the end of each paragraph.
pub open spec fn text_of_pieces(pieces: Seq<Piece>) -> Seq<char>
    decreases pieces.len(),
{
    if pieces.len() == 0 {
        Seq::empty()
    } else {
        let before = text_of_pieces(pieces.drop_last());
        match pieces.last() {
            Piece::Tag(t) => if t == "/w:p"@ {
                before.push('\n')
            } else {
                before
            },
            Piece::Text(t) => if inside_text(pieces.drop_last()) {
                before + t
            } else {
                before
            },
        }
    }
}

proof fn lemma_scanned_on(s: Scan, a: Seq<char>, b: Seq<char>)
    ensures
        scanned(s, a + b) == scanned(scanned(s, a), b),
    decreases b.len(),
{
    if b.len() == 0 {
        assert(a + b =~= a);
    } else {
        lemma_scanned_on(s, a, b.drop_last());
        assert((a + b).drop_last() =~= a + b.drop_last());
        assert((a + b).last() == b.last());
    }
}

proof fn lemma_scanned_text(s: Scan, t: Seq<char>)
    requires
        no_opening(t),
        !s.in_tag,
    ensures
        scanned(s, t) == if s.in_text {
            Scan { current: s.current + t, ..s }
        } else {
            s
        },
    decreases t.len(),
{
    if t.len() == 0 {
        assert(s.current + t =~= s.current);
    } else {
        assert(no_opening(t.drop_last()));
        lemma_scanned_text(s, t.drop_last());
        assert(t.last() == t[t.len() - 1]);
        assert((s.current + t.drop_last()).push(t.last()) =~= s.current + t);
    }
}

proof fn lemma_scanned_tag(s: Scan, t: Seq<char>)
    requires
        no_brackets(t),
        s.in_tag,
    ensures
        scanned(s, t) == (Scan { tag: s.tag + t, ..s }),
    decreases t.len(),
{
    if t.len() == 0 {
        assert(s.tag + t =~= s.tag);
    } else {
        assert(no_brackets(t.drop_last()));
        lemma_scanned_tag(s, t.drop_last());
        assert(t.last() == t[t.len() - 1]);
        assert((s.tag + t.drop_last()).push(t.last()) =~= s.tag + t);
    }
}

proof fn lemma_scanned_one(s: Scan, c: char)
    ensures
        scanned(s, seq![c]) == scan_step(s, c),
{
    reveal_with_fuel(scanned, 2);
    assert(seq![c].drop_last() =~= Seq::empty());
}

proof fn lemma_scanned_piece(s: Scan, t: Seq<char>)
    requires
        no_brackets(t),
    ensures
        scanned(s, piece_markup(Piece::Tag(t))) == tag_read(
            Scan { tag: t, ..scan_step(s, '<') },
        ),
{
    let opened = scan_step(s, '<');
    lemma_scanned_on(s, seq!['<'] + t, seq!['>']);
    lemma_scanned_on(s, seq!['<'], t);
    lemma_scanned_one(s, '<');
    lemma_scanned_tag(opened, t);
    assert(opened.tag + t =~= t);
    lemma_scanned_one(Scan { tag: t, ..opened }, '>');
}

proof fn lemma_pieces(pieces: Seq<Piece>)
    requires
        forall|i: int| 0 <= i < pieces.len() ==> piece_is_plain(#[trigger] pieces[i]),
    ensures
        ({
            let s = scanned(scan_start(), markup_of(pieces));
            &&& !s.in_tag
            &&& s.in_text == inside_text(pieces)
            &&& s.out + s.current == text_of_pieces(pieces)
            &&& !s.in_text ==> s.current.len() == 0
            &&& pieces.len() > 0 && pieces.last() is Tag ==> s.current.len() == 0
        }),
    decreases pieces.len(),
{
    if pieces.len() > 0 {
        let less = pieces.drop_last();
        assert forall|i: int| 0 <= i < less.len() implies piece_is_plain(#[trigger] less[i]) by {
            assert(less[i] == pieces[i]);
        }
        lemma_pieces(less);
        assert(piece_is_plain(pieces[pieces.len() - 1]));
        let before = scanned(scan_start(), markup_of(less));
        let s = scanned(scan_start(), markup_of(pieces));
        lemma_scanned_on(scan_start(), markup_of(less), piece_markup(pieces.last()));
        match pieces.last() {
            Piece::Tag(t) => {
                lemma_scanned_piece(before, t);
                reveal_strlit("w:t");
                reveal_strlit("/w:t");
                reveal_strlit("/w:p");
                assert(!opens_text("/w:p"@)) by {
                    assert("/w:p"@.take(3)[0] != "w:t"@[0]);
                    assert("/w:p"@[0] != "w:t"@[0]);
                }
                assert("/w:p"@ != "/w:t"@) by {
                    assert("/w:p"@[3] != "/w:t"@[3]);
                }
                assert(before.out + before.current =~= before.out || before.current.len() > 0);
                assert(s.out + s.current =~= s.out);
            },
            Piece::Text(t) => {
                lemma_scanned_text(before, t);
                assert(before.out + (before.current + t) =~= before.out + before.current + t);
            },
        }
    } else {
        assert(Seq::<char>::empty() + Seq::<char>::empty() =~= Seq::<char>::empty());
    }
}

/// The text of a document is what stands inside its text elements, with a line
/// break at the end of each paragraph and the white space at both ends taken off.
pub proof fn law_text_elements_are_extracted(pieces: Seq<Piece>)
    requires
        pieces.len() > 0,
        pieces.last() is Tag,
        forall|i: int| 0 <= i < pieces.len() ==> piece_is_plain(#[trigger] pieces[i]),
    ensures
        markup_outcome(markup_of(pieces)) == if stripped(text_of_pieces(pieces)).len() == 0 {
            Err("DOCX file appears to be empty or could not be parsed"@)
        } else {
            Ok::<Seq<char>, Seq<char>>(stripped(text_of_pieces(pieces)))
        },
{
    lemma_pieces(pieces);
    let s = scanned(scan_start(), markup_of(pieces));
    assert(s.out + s.current =~= s.out);
}

/// Which extensions are read, and how. A file without one is read as little as one with
/// any other.
pub proof fn law_extensions_are_known(extension: Seq<char>)
    ensures
        kind_named(extension) == Some(DocumentKind::Pdf) <==> extension == "pdf"@,
        kind_named(extension) == Some(DocumentKind::Docx) <==> extension == "docx"@,
        kind_named(extension) == Some(DocumentKind::Text) <==> extension == "txt"@ || extension
            == "md"@ || extension == "rtf"@,
        is_ascii_chars(extension) ==> extension_text(Some(extension)) == ascii_lower(extension),
        kind_named(extension_text(None)) is None,
{
    reveal_strlit("pdf");
    reveal_strlit("docx");
    reveal_strlit("txt");
    reveal_strlit("md");
    reveal_strlit("rtf");
    assert("pdf"@[0] == 'p' && "txt"@[0] == 't' && "rtf"@[0] == 'r');
    assert("pdf"@.len() == 3 && "docx"@.len() == 4 && "txt"@.len() == 3);
    assert("md"@.len() == 2 && "rtf"@.len() == 3);
}

/// Which tags open a text element: the bare name, and the name with white space and
/// anything behind it. A longer name is another element.
pub proof fn law_text_tags_are_known(tag: Seq<char>, c: char, rest: Seq<char>)
    ensures
        opens_text("w:t"@),
        opens_text("w:t"@ + seq![c] + rest) <==> is_white(c),
        opens_text(tag) ==> begins(tag, "w:t"@),
        tag.len() < 3 ==> !opens_text(tag),
{
    reveal_strlit("w:t");
    let t = "w:t"@ + seq![c] + rest;
    assert(t.take(3) =~= "w:t"@);
    assert(t[3] == c);
    assert(t.len() > 3);
    assert("w:t"@.take(3) =~= "w:t"@);
}

/// Text behind the last tag is not in any element that was closed, and is left out.
pub proof fn law_text_behind_the_last_tag_is_left_out(pieces: Seq<Piece>, t: Seq<char>)
    requires
        forall|i: int| 0 <= i < pieces.len() ==> piece_is_plain(#[trigger] pieces[i]),
        no_opening(t),
    ensures
        markup_outcome(markup_of(pieces) + t) == markup_outcome(markup_of(pieces)),
{
    lemma_pieces(pieces);
    lemma_scanned_on(scan_start(), markup_of(pieces), t);
    lemma_scanned_text(scanned(scan_start(), markup_of(pieces)), t);
}

/// A bracket that opens inside a tag begins the tag anew: what stood before it is dropped.
pub proof fn law_a_tag_may_begin_anew(s: Scan, broken: Seq<char>, t: Seq<char>)
    requires
        no_brackets(broken),
        no_brackets(t),
    ensures
        scanned(s, seq!['<'] + broken + piece_markup(Piece::Tag(t))) == scanned(
            s,
            piece_markup(Piece::Tag(t)),
        ),
{
    let opened = scan_step(s, '<');
    let junk = Scan { tag: opened.tag + broken, ..opened };
    lemma_scanned_on(s, seq!['<'] + broken, piece_markup(Piece::Tag(t)));
    lemma_scanned_on(s, seq!['<'], broken);
    lemma_scanned_one(s, '<');
    lemma_scanned_tag(opened, broken);
    lemma_scanned_piece(junk, t);
    lemma_scanned_piece(s, t);
    assert(scan_step(junk, '<').out =~= opened.out);
    assert(scan_step(junk, '<').current =~= opened.current);
    assert(scan_step(junk, '<') =~= opened);
}

/// A document with one paragraph for each of some lines reads as those lines, each with a
/// line break behind it.
pub proof fn law_paragraphs_are_lines(pieces: Seq<Piece>, line: Seq<char>)
    ensures
        ({
            let more = pieces.push(Piece::Tag("w:t"@)).push(Piece::Text(line)).push(
                Piece::Tag("/w:t"@),
            ).push(Piece::Tag("/w:p"@));
            &&& text_of_pieces(more) == text_of_pieces(pieces) + line + seq!['\n']
            &&& !inside_text(more)
        }),
{
    reveal_strlit("w:t");
    reveal_strlit("/w:t");
    reveal_strlit("/w:p");
    let a = pieces.push(Piece::Tag("w:t"@));
    let b = a.push(Piece::Text(line));
    let c = b.push(Piece::Tag("/w:t"@));
    let d = c.push(Piece::Tag("/w:p"@));
    assert(a.drop_last() =~= pieces);
    assert(b.drop_last() =~= a);
    assert(c.drop_last() =~= b);
    assert(d.drop_last() =~= c);
    assert("w:t"@.len() == 3 && "/w:t"@.len() == 4 && "/w:p"@.len() == 4);
    assert("/w:p"@[3] == 'p' && "/w:t"@[3] == 't');
    assert(!opens_text("/w:t"@)) by {
        assert("/w:t"@.take(3)[0] == '/');
        assert("w:t"@[0] == 'w');
    }
    assert(!opens_text("/w:p"@)) by {
        assert("/w:p"@.take(3)[0] == '/');
        assert("w:t"@[0] == 'w');
    }
    assert(inside_text(a));
    assert(inside_text(b));
    assert(!inside_text(c));
    assert(text_of_pieces(a) == text_of_pieces(pieces));
    assert(text_of_pieces(b) == text_of_pieces(pieces) + line);
    assert(text_of_pieces(c) == text_of_pieces(b));
    assert(text_of_pieces(d) =~= text_of_pieces(pieces) + line + seq!['\n']);
}

/// What comes of a PDF: its text as it stands where any of it can be seen, and otherwise
/// what is wrong.
pub proof fn law_a_pdf_is_read_as_it_stands(text: Seq<char>, e: Seq<char>, white: Seq<char>)
    requires
        all_of(white, CharClass::White),
    ensures
        stripped(text).len() > 0 ==> pdf_outcome(Ok(text)) == Ok::<Seq<char>, Seq<char>>(text),
        pdf_outcome(Ok(white)) is Err,
        pdf_outcome(Err(e)) == Err::<Seq<char>, Seq<char>>(
            "Failed to extract text from PDF: "@ + e
                + ". Make sure the PDF contains text (not just images)."@,
        ),
{
    let none = Seq::<char>::empty();
    law_trim_leaves_what_stands_between(white, none, none, CharClass::White);
    assert(white + none + none =~= white);
}

/// What comes of a Word document is what comes of its main part, once the archive opens and
/// the part can be read. What is wrong before that is what is said.
pub proof fn law_a_document_is_its_main_part(
    e: Seq<char>,
    marked: bool,
    part: Member<Seq<char>>,
    xml: Seq<char>,
)
    ensures
        docx_outcome(None, false, Member::Content(xml)) == markup_outcome(xml),
        docx_outcome(Some(e), marked, part) == Err::<Seq<char>, Seq<char>>(
            "Failed to open DOCX archive: "@ + e,
        ),
        docx_outcome(None, false, Member::Unreadable(e)) == Err::<Seq<char>, Seq<char>>(
            "Failed to read document.xml: "@ + e,
        ),
        docx_outcome(None, true, part) == docx_outcome(None, false, Member::Missing),
        docx_outcome(None, false, Member::Missing) == Err::<Seq<char>, Seq<char>>(
            "DOCX file does not contain document.xml"@,
        ),
{
}

/// The number that bytes stand for, the lowest first.
pub open spec fn number_of_bytes(bytes: Seq<u8>) -> nat
    decreases bytes.len(),
{
    if bytes.len() == 0 {
        0
    } else {
        bytes[0] as nat + 256 * number_of_bytes(bytes.drop_first())
    }
}

/// Numbers are read with the lowest byte first, as wide as they are.
pub proof fn law_numbers_are_read_lowest_first(bytes: Seq<u8>, at: int)
    requires
        0 <= at,
        at + 8 <= bytes.len(),
    ensures
        le16(bytes, at) == number_of_bytes(bytes.subrange(at, at + 2)),
        le32(bytes, at) == number_of_bytes(bytes.subrange(at, at + 4)),
        le64(bytes, at) == number_of_bytes(bytes.subrange(at, at + 8)),
{
    reveal_with_fuel(number_of_bytes, 9);
    assert(bytes.subrange(at + 8, at + 8) =~= Seq::<u8>::empty());
    lemma_one_byte(bytes, at + 7, at + 8);
    lemma_one_byte(bytes, at + 6, at + 8);
    lemma_one_byte(bytes, at + 5, at + 8);
    lemma_one_byte(bytes, at + 4, at + 8);
    lemma_one_byte(bytes, at + 3, at + 8);
    lemma_one_byte(bytes, at + 2, at + 8);
    lemma_one_byte(bytes, at + 1, at + 8);
    lemma_one_byte(bytes, at, at + 8);
    assert(bytes.subrange(at + 4, at + 4) =~= Seq::<u8>::empty());
    lemma_one_byte(bytes, at + 3, at + 4);
    lemma_one_byte(bytes, at + 2, at + 4);
    lemma_one_byte(bytes, at + 1, at + 4);
    lemma_one_byte(bytes, at, at + 4);
    assert(bytes.subrange(at + 2, at + 2) =~= Seq::<u8>::empty());
    lemma_one_byte(bytes, at + 1, at + 2);
    lemma_one_byte(bytes, at, at + 2);
}

proof fn lemma_one_byte(bytes: Seq<u8>, at: int, end: int)
    requires
        0 <= at < end <= bytes.len(),
    ensures
        number_of_bytes(bytes.subrange(at, end)) == bytes[at] as nat + 256 * number_of_bytes(
            bytes.subrange(at + 1, end),
        ),
{
    assert(bytes.subrange(at, end).drop_first() =~= bytes.subrange(at + 1, end));
}

proof fn lemma_le_behind(a: Seq<u8>, b: Seq<u8>, at: int)
    requires
        0 <= at,
    ensures
        at + 2 <= b.len() ==> le16(a + b, a.len() + at) == le16(b, at),
        at + 8 <= b.len() ==> le64(a + b, a.len() + at) == le64(b, at),
{
}

proof fn lemma_widened_behind(a: Seq<u8>, b: Seq<u8>, at: int, field: nat)
    requires
        0 <= at,
    ensures
        match widened(b, at, field) {
            Some((value, next)) => next >= at && widened(a + b, a.len() + at, field) == Some(
                (value, a.len() + next),
            ),
            None => widened(a + b, a.len() + at, field) is None,
        },
{
    lemma_le_behind(a, b, at);
}

proof fn lemma_all_widened_behind(a: Seq<u8>, b: Seq<u8>, at: int, f: NarrowFields)
    requires
        0 <= at,
    ensures
        match all_widened(b, at, f) {
            Some((g, next)) => next >= at && all_widened(a + b, a.len() + at, f) == Some(
                (g, a.len() + next),
            ),
            None => all_widened(a + b, a.len() + at, f) is None,
        },
{
    lemma_widened_behind(a, b, at, f.size);
    match widened(b, at, f.size) {
        Some((size, at)) => {
            lemma_widened_behind(a, b, at, f.packed_size);
            match widened(b, at, f.packed_size) {
                Some((packed_size, at)) => {
                    lemma_widened_behind(a, b, at, f.place);
                },
                None => {},
            }
        },
        None => {},
    }
}

#[verifier::spinoff_prover]
#[verifier::rlimit(50)]
proof fn lemma_says_aes_behind(a: Seq<u8>, b: Seq<u8>, at: int, f: NarrowFields)
    requires
        0 <= at,
    ensures
        says_aes(a + b, a.len() + at, f) == says_aes(b, at, f),
    decreases
            (if at < b.len() {
                b.len() - at
            } else {
                0
            }),
{
    if at + 4 <= b.len() {
        let all = a + b;
        let n = a.len() as int;
        let kind = le16(b, at);
        let end = at + 4 + le16(b, at + 2);
        lemma_le_behind(a, b, at);
        lemma_le_behind(a, b, at + 2);
        assert(le16(all, n + at) == kind);
        assert(n + at + 4 + le16(all, n + at + 2) == n + end);
        if kind == 0x0001 {
            lemma_all_widened_behind(a, b, at + 4, f);
            match all_widened(b, at + 4, f) {
                Some((g, read)) => {
                    let next = if end > read {
                        end
                    } else {
                        read
                    };
                    assert(all_widened(all, n + at + 4, f) == Some((g, n + read)));
                    lemma_says_aes_behind(a, b, next, g);
                },
                None => {},
            }
        } else if kind != 0x9901 {
            lemma_says_aes_behind(a, b, end, f);
        }
    }
}

/// A record of an extra field: its kind, its length and its bytes.
pub open spec fn is_record(record: Seq<u8>, kind: nat) -> bool {
    record.len() >= 4 && le16(record, 0) == kind && le16(record, 2) == record.len() - 4
}

/// An extra field is read record by record. One of seven bytes of the kind for AES says
/// that the member is encrypted, and any other length of that kind does not. A record of
/// another kind does not matter, nor does one that widens fields where none is full.
pub proof fn law_records_are_read_in_turn(
    record: Seq<u8>,
    kind: nat,
    rest: Seq<u8>,
    f: NarrowFields,
)
    requires
        is_record(record, kind),
    ensures
        kind == 0x9901 ==> (says_aes(record + rest, 0, f) <==> record.len() == 11),
        kind != 0x9901 && kind != 1 ==> says_aes(record + rest, 0, f) == says_aes(rest, 0, f),
        kind == 1 && f.size != 0xffff_ffff && f.packed_size != 0xffff_ffff && f.place
            != 0xffff_ffff ==> says_aes(record + rest, 0, f) == says_aes(rest, 0, f),
        !says_aes(Seq::empty(), 0, f),
{
    let all = record + rest;
    assert(le16(all, 0) == le16(record, 0));
    assert(le16(all, 2) == le16(record, 2));
    lemma_says_aes_behind(record, rest, 0, f);
}

/// A record that widens fields holds eight bytes for each that is full, in the order of the
/// size, the packed size and the place, and nothing is said where they are not there.
pub proof fn law_full_fields_are_widened_in_order(extra: Seq<u8>, at: int, f: NarrowFields)
    requires
        0 <= at,
    ensures
        ({
            let full: nat = 0xffff_ffff;
            let a = if f.size == full {
                8int
            } else {
                0
            };
            let b = if f.packed_size == full {
                8int
            } else {
                0
            };
            let c = if f.place == full {
                8int
            } else {
                0
            };
            let end = at + a + b + c;
            match all_widened(extra, at, f) {
                Some((g, next)) => {
                    &&& next == end
                    &&& g.size == if f.size == full {
                        le64(extra, at)
                    } else {
                        f.size
                    }
                    &&& g.packed_size == if f.packed_size == full {
                        le64(extra, at + a)
                    } else {
                        f.packed_size
                    }
                    &&& g.place == if f.place == full {
                        le64(extra, at + a + b)
                    } else {
                        f.place
                    }
                },
                None => end > extra.len() && end > at,
            }
        }),
{
}

proof fn lemma_last_named_skips(bytes: Seq<u8>, name: Seq<char>, k: nat, n: nat)
    requires
        k <= n,
        forall|i: int|
            k <= i < n ==> !(#[trigger] member_entry(bytes, i as usize) matches Some(e) && e.0
                == name),
    ensures
        last_named(bytes, name, n) == last_named(bytes, name, k),
    decreases n,
{
    if k < n {
        assert(!(member_entry(bytes, (n - 1) as usize) matches Some(e) && e.0 == name));
        lemma_last_named_skips(bytes, name, k, (n - 1) as nat);
    }
}

/// A name stands for the last member that has it, whatever members come before it.
pub proof fn law_the_last_member_counts(
    bytes: Seq<u8>,
    name: Seq<char>,
    k: nat,
    n: nat,
    extra: Seq<u8>,
    header: u64,
)
    requires
        k < n <= usize::MAX,
        member_entry(bytes, k as usize) == Some((name, extra, header)),
        forall|i: int|
            k < i < n ==> !(#[trigger] member_entry(bytes, i as usize) matches Some(e) && e.0
                == name),
    ensures
        last_named(bytes, name, n) == Some((extra, header)),
{
    lemma_last_named_skips(bytes, name, (k + 1) as nat, n);
}

/// An entry contradicts itself only where it is whole, its flags do not say that the member
/// is encrypted, and its extra field says so.
pub proof fn law_only_a_whole_entry_contradicts_itself(
    bytes: Seq<u8>,
    extra: Seq<u8>,
    header: u64,
)
    ensures
        contradicts_itself(bytes, extra, header) <==> header + 46 <= bytes.len() && bytes[header
            + 8] % 2 == 0 && says_aes(
            extra,
            0,
            NarrowFields {
                size: le32(bytes, header + 24),
                packed_size: le32(bytes, header + 20),
                place: le32(bytes, header + 42),
            },
        ),
        extra.len() < 11 ==> !contradicts_itself(bytes, extra, header),
{
    let f = NarrowFields {
        size: le32(bytes, header + 24),
        packed_size: le32(bytes, header + 20),
        place: le32(bytes, header + 42),
    };
    lemma_short_field_says_nothing(extra, 0, f);
}

proof fn lemma_short_field_says_nothing(extra: Seq<u8>, at: int, f: NarrowFields)
    requires
        0 <= at,
    ensures
        extra.len() < at + 11 ==> !says_aes(extra, at, f),
    decreases
            (if at < extra.len() {
                extra.len() - at
            } else {
                0
            }),
{
    if at + 4 <= extra.len() {
        let kind = le16(extra, at);
        let end = at + 4 + le16(extra, at + 2);
        if kind == 0x9901 {
        } else if kind == 0x0001 {
            match all_widened(extra, at + 4, f) {
                Some((g, read)) => {
                    let next = if end > read {
                        end
                    } else {
                        read
                    };
                    lemma_short_field_says_nothing(extra, next, g);
                },
                None => {},
            }
        } else {
            lemma_short_field_says_nothing(extra, end, f);
        }
    }
}

/// A format that is not read is named in what is said of it.
pub proof fn law_an_unread_format_is_named(extension: Seq<char>)
    ensures
        occurs(unsupported(extension), extension),
        begins(unsupported(extension), "Unsupported file format: "@ + extension),
{
    let head = "Unsupported file format: "@ + extension;
    let tail = ". Supported formats: PDF, TXT, MD, RTF, DOCX"@;
    lemma_occurs_last("Unsupported file format: "@, extension);
    lemma_occurs_left(head, tail, extension);
    assert((head + tail).take(head.len() as int) =~= head);
}

} // verus!
