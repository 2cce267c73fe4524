use std::io::{Cursor, Write};

use platypus::documents::{
    document_kind, document_kind_of, document_text, docx_text, extract_text_from_docx,
    file_not_found, import_docx, pdf_text, text_file, DocumentKind, Member,
};
use zip::write::FileOptions;
use zip::{CompressionMethod, ZipWriter};

fn archive(members: &[(&str, &[u8], CompressionMethod)]) -> Vec<u8> {
    let mut writer = ZipWriter::new(Cursor::new(Vec::new()));
    for (name, content, method) in members {
        let options = FileOptions::default().compression_method(*method);
        writer.start_file(*name, options).unwrap();
        writer.write_all(content).unwrap();
    }
    writer.finish().unwrap().into_inner()
}

const XML: &str = "<w:p><w:r><w:t>Hello</w:t></w:r><w:r><w:t xml:space=\"preserve\"> world</w:t></w:r></w:p><w:p><w:t>Bye</w:t></w:p>";

#[test]
fn formats_are_known_by_extension() {
    assert_eq!(document_kind(&Some("PDF".to_string())), Ok(DocumentKind::Pdf));
    for text in ["txt", "Md", "RTF"] {
        assert_eq!(document_kind(&Some(text.to_string())), Ok(DocumentKind::Text));
    }
    assert_eq!(document_kind(&Some("DocX".to_string())), Ok(DocumentKind::Docx));
    assert_eq!(
        document_kind(&Some("DOC".to_string())),
        Err("Unsupported file format: doc. Supported formats: PDF, TXT, MD, RTF, DOCX".to_string())
    );
    assert_eq!(
        document_kind(&None),
        Err("Unsupported file format: . Supported formats: PDF, TXT, MD, RTF, DOCX".to_string())
    );
    assert_eq!(
        document_kind(&Some("Ż".to_string())),
        Err("Unsupported file format: ż. Supported formats: PDF, TXT, MD, RTF, DOCX".to_string())
    );
    assert_eq!(document_kind_of("md"), Ok(DocumentKind::Text));
    assert!(document_kind_of("MD").is_err());
}

#[test]
fn what_cannot_be_read_is_reported() {
    assert_eq!(file_not_found("/a/b"), "File not found: /a/b");
    assert_eq!(text_file(Ok(" x ".to_string())), Ok(" x ".to_string()));
    assert_eq!(
        text_file(Err("denied".to_string())),
        Err("Failed to read text file: denied".to_string())
    );
    assert_eq!(
        import_docx(Err("denied".to_string())),
        Err("Failed to read DOCX file: denied".to_string())
    );
}

#[test]
fn a_pdf_must_hold_text() {
    assert_eq!(pdf_text(Ok(" x ".to_string())), Ok(" x ".to_string()));
    assert_eq!(
        pdf_text(Ok(" \n".to_string())),
        Err("PDF appears to be empty or contains only images/non-text content".to_string())
    );
    assert_eq!(
        pdf_text(Err("bad".to_string())),
        Err("Failed to extract text from PDF: bad. Make sure the PDF contains text (not just images).".to_string())
    );
}

#[test]
fn text_elements_are_extracted() {
    assert_eq!(document_text(XML), Ok("Hello world\nBye".to_string()));
    assert_eq!(document_text("<x>no</x><w:t>yes</w:t>no<y/>"), Ok("yes".to_string()));
    assert_eq!(document_text("<w:t>a</w:t><w:p/><w:t>b</w:t>"), Ok("ab".to_string()));
}

#[test]
fn only_text_elements_hold_text() {
    assert_eq!(
        document_text("<w:p><w:r><w:t>A</w:t><w:tab/><w:instrText>PAGE</w:instrText></w:r></w:p>"),
        Ok("A".to_string())
    );
    assert_eq!(
        document_text("<w:tbl>x<w:tr>y<w:tc>z<w:t>A</w:t></w:tc></w:tr></w:tbl>"),
        Ok("A".to_string())
    );
    assert_eq!(document_text("<w:t/>x<w:t>A</w:t>"), Ok("A".to_string()));
}

#[test]
fn text_that_no_markup_follows_is_not_found() {
    assert_eq!(
        document_text("<w:t>tail"),
        Err("DOCX file appears to be empty or could not be parsed".to_string())
    );
}

#[test]
fn a_text_element_may_open_over_several_lines() {
    for tag in ["<w:t\n>", "<w:t\txml:space=\"preserve\">", "<w:t\r\n x=\"1\">", "<w:t >"] {
        assert_eq!(document_text(&format!("{}A</w:t>", tag)), Ok("A".to_string()));
    }
}

#[test]
fn a_closing_bracket_in_text_is_text() {
    assert_eq!(document_text("<w:t>a > b</w:t>"), Ok("a > b".to_string()));
    assert_eq!(
        document_text("<w:t>a</w:t></w:p>>><w:t>b >></w:t>"),
        Ok("a\nb >>".to_string())
    );
}

#[test]
fn a_document_without_text_is_refused() {
    for xml in ["", "<w:p></w:p>", "<w:t>  </w:t></w:p>"] {
        assert_eq!(
            document_text(xml),
            Err("DOCX file appears to be empty or could not be parsed".to_string())
        );
    }
}

#[test]
fn a_word_document_is_unpacked() {
    for method in [CompressionMethod::Stored, CompressionMethod::Deflated] {
        let bytes = archive(&[
            ("[Content_Types].xml", b"<Types/>", method),
            ("word/document.xml", XML.as_bytes(), method),
        ]);
        assert_eq!(extract_text_from_docx(bytes), Ok("Hello world\nBye".to_string()));
    }
    let bytes = archive(&[("word/document.xml", XML.as_bytes(), CompressionMethod::Deflated)]);
    assert_eq!(import_docx(Ok(bytes)), Ok("Hello world\nBye".to_string()));
}

#[test]
fn a_file_that_is_no_archive_is_refused() {
    assert_eq!(
        extract_text_from_docx(b"not a zip file at all, just text".to_vec()),
        Err("Failed to open DOCX archive: invalid Zip archive: Could not find central directory end".to_string())
    );
    assert_eq!(
        extract_text_from_docx(vec![]),
        Err("Failed to open DOCX archive: invalid Zip archive: Invalid zip header".to_string())
    );
}

#[test]
fn an_archive_without_the_main_part_is_refused() {
    let bytes = archive(&[("word/other.xml", XML.as_bytes(), CompressionMethod::Stored)]);
    assert_eq!(
        extract_text_from_docx(bytes),
        Err("DOCX file does not contain document.xml".to_string())
    );
}

#[test]
fn a_main_part_that_is_no_text_is_refused() {
    let bytes = archive(&[("word/document.xml", &[0xff, 0xfe], CompressionMethod::Stored)]);
    assert_eq!(
        extract_text_from_docx(bytes),
        Err("Failed to read document.xml: stream did not contain valid UTF-8".to_string())
    );
}

const AES_CONTENT: [u8; 7] = [0x02, 0x00, b'A', b'E', 0x03, 0x00, 0x00];

fn with_extra(records: &[(&[u8], XmlPart)]) -> Vec<u8> {
    let mut writer = ZipWriter::new(Cursor::new(Vec::new()));
    for (extra, part) in records {
        writer
            .start_file_with_extra_data(
                "word/document.xml",
                FileOptions::default().compression_method(CompressionMethod::Stored),
            )
            .unwrap();
        writer.write_all(extra).unwrap();
        writer.end_extra_data().unwrap();
        writer.write_all(part.as_bytes()).unwrap();
    }
    writer.finish().unwrap().into_inner()
}

type XmlPart = &'static str;

fn record(kind: u16, content: &[u8]) -> Vec<u8> {
    let mut r = kind.to_le_bytes().to_vec();
    r.extend((content.len() as u16).to_le_bytes());
    r.extend(content);
    r
}

fn patch(bytes: &mut [u8], from: &[u8], to: &[u8]) -> usize {
    let mut n = 0;
    for i in 0..bytes.len() - from.len() {
        if bytes[i..].starts_with(from) {
            bytes[i..i + to.len()].copy_from_slice(to);
            n += 1;
        }
    }
    n
}

fn missing() -> Result<String, String> {
    Err("DOCX file does not contain document.xml".to_string())
}

#[test]
fn an_entry_that_contradicts_itself_counts_as_missing() {
    let mut bytes = with_extra(&[(&record(0x4242, &AES_CONTENT), XML)]);
    assert_eq!(extract_text_from_docx(bytes.clone()), Ok("Hello world\nBye".to_string()));
    assert_eq!(patch(&mut bytes, &[0x42, 0x42, 7, 0], &[0x01, 0x99, 7, 0]), 2);
    assert_eq!(extract_text_from_docx(bytes), missing());
}

#[test]
fn an_encrypted_main_part_counts_as_missing() {
    let mut bytes = with_extra(&[(&record(0x4242, &AES_CONTENT), XML)]);
    patch(&mut bytes, &[0x42, 0x42, 7, 0], &[0x01, 0x99, 7, 0]);
    let header = bytes.windows(4).position(|w| w == [b'P', b'K', 1, 2]).unwrap();
    bytes[header + 8] |= 1;
    assert_eq!(extract_text_from_docx(bytes), missing());
}

#[test]
fn records_are_walked_one_after_the_other() {
    let mut extra = record(0x4141, &[9, 9, 9]);
    extra.extend(record(0x4242, &AES_CONTENT));
    let mut bytes = with_extra(&[(&extra, XML)]);
    patch(&mut bytes, &[0x42, 0x42, 7, 0], &[0x01, 0x99, 7, 0]);
    assert_eq!(extract_text_from_docx(bytes), missing());

    let mut extra = record(0x4343, &[]);
    extra.extend(record(0x4242, &AES_CONTENT));
    let mut bytes = with_extra(&[(&extra, XML)]);
    patch(&mut bytes, &[0x43, 0x43, 0, 0], &[0x01, 0x00, 0, 0]);
    patch(&mut bytes, &[0x42, 0x42, 7, 0], &[0x01, 0x99, 7, 0]);
    assert_eq!(extract_text_from_docx(bytes), missing());
}

#[test]
fn what_looks_like_a_mark_inside_another_record_is_none() {
    let bytes = with_extra(&[(&record(0x1234, &record(0x9901, &AES_CONTENT)), XML)]);
    assert_eq!(extract_text_from_docx(bytes), Ok("Hello world\nBye".to_string()));
}

#[test]
fn the_last_member_of_a_name_is_read() {
    let mut bytes = with_extra(&[
        (&record(0x4242, &AES_CONTENT), "<w:t>old</w:t>"),
        (&record(0x4141, &[1]), "<w:t>new</w:t>"),
    ]);
    assert_eq!(extract_text_from_docx(bytes.clone()), Ok("new".to_string()));
    assert_eq!(patch(&mut bytes, &[0x42, 0x42, 7, 0], &[0x01, 0x99, 7, 0]), 2);
    assert_eq!(extract_text_from_docx(bytes), Ok("new".to_string()));
}

#[test]
fn each_way_to_read_a_word_document_has_its_outcome() {
    let text = || Member::Content("<w:t>x</w:t>".to_string());
    assert_eq!(docx_text(None, false, text()), Ok("x".to_string()));
    assert_eq!(
        docx_text(None, true, text()),
        Err("DOCX file does not contain document.xml".to_string())
    );
    assert_eq!(
        docx_text(Some("e".to_string()), false, text()),
        Err("Failed to open DOCX archive: e".to_string())
    );
    assert_eq!(
        docx_text(None, false, Member::Missing),
        Err("DOCX file does not contain document.xml".to_string())
    );
    assert_eq!(
        docx_text(None, false, Member::Unreadable("e".to_string())),
        Err("Failed to read document.xml: e".to_string())
    );
}
