use file_lister::docparse::{
    audio_metadata_from_params, extract_code_text, extract_csv_table, extract_docx_text,
    extract_text_from_docx_xml, extract_txt_text, read_text_with_encoding,
};

#[test]
fn utf8_text_passes_through() {
    let bytes = "hello\nworld".as_bytes().to_vec();
    assert_eq!(read_text_with_encoding(&bytes), "hello\nworld");
}

#[test]
fn invalid_utf8_falls_back_to_windows_1252() {
    // 0xE9 alone is not UTF-8; WINDOWS-1252 reads it as an accented e
    let bytes = vec![0x63, 0x61, 0x66, 0xE9];
    assert_eq!(read_text_with_encoding(&bytes), "caf\u{e9}");
}

#[test]
fn txt_preview_truncates_to_one_hundred_lines() {
    let mut content = String::new();
    for i in 0..150 {
        content.push_str(&format!("line {}\n", i));
    }
    let out = extract_txt_text(&content.into_bytes());
    assert!(out.ends_with("... (showing first 100 of 150 lines)"));
    assert!(out.starts_with("line 0\nline 1\n"));
    // the hundredth line is the last shown
    assert!(out.contains("line 99\n\n"));
    assert!(!out.contains("line 100\n"));
}

#[test]
fn short_text_is_untouched() {
    let out = extract_txt_text(&b"one\r\ntwo".to_vec());
    assert_eq!(out, "one\ntwo");
}

#[test]
fn code_preview_shows_three_hundred_lines() {
    let mut content = String::new();
    for i in 0..301 {
        content.push_str(&format!("fn f{}() {{}}\n", i));
    }
    let out = extract_code_text(&content.into_bytes());
    assert!(out.ends_with("... (showing first 300 of 301 lines)"));
}

#[test]
fn docx_xml_scrapes_text_runs_per_paragraph() {
    let xml = "<w:document><w:p><w:t>Hello</w:t><w:r/><w:t xml:space=\"preserve\"> world</w:t></w:p><w:p><w:t>Next</w:t></w:p></w:document>";
    let out = extract_text_from_docx_xml(xml);
    assert_eq!(out, "Hello world\nNext\n");
}

#[test]
fn docx_xml_ignores_text_outside_runs() {
    let out = extract_text_from_docx_xml("<w:p>skip<w:t>keep</w:t>skip</w:p>");
    assert_eq!(out, "keep\n");
}

#[test]
fn docx_extraction_reads_the_document_entry() {
    // build a DOCX-shaped archive in memory
    let mut buf: Vec<u8> = Vec::new();
    {
        let cursor = std::io::Cursor::new(&mut buf);
        let mut zipw = zip::ZipWriter::new(cursor);
        let opts: zip::write::SimpleFileOptions = Default::default();
        zipw.start_file("word/document.xml", opts).unwrap();
        std::io::Write::write_all(
            &mut zipw,
            b"<w:document><w:p><w:t>From the archive</w:t></w:p></w:document>",
        )
        .unwrap();
        zipw.finish().unwrap();
    }
    let out = extract_docx_text(&buf).unwrap();
    assert_eq!(out, "From the archive");
}

#[test]
fn docx_extraction_reports_missing_entry() {
    let mut buf: Vec<u8> = Vec::new();
    {
        let cursor = std::io::Cursor::new(&mut buf);
        let mut zipw = zip::ZipWriter::new(cursor);
        let opts: zip::write::SimpleFileOptions = Default::default();
        zipw.start_file("other.txt", opts).unwrap();
        std::io::Write::write_all(&mut zipw, b"nothing").unwrap();
        zipw.finish().unwrap();
    }
    let err = extract_docx_text(&buf).unwrap_err();
    assert!(err.starts_with("Failed to find document content: "), "got: {}", err);
}

#[test]
fn docx_extraction_reports_bad_archive() {
    let err = extract_docx_text(&vec![1, 2, 3, 4]).unwrap_err();
    assert!(err.starts_with("Failed to read DOCX archive: "), "got: {}", err);
}

#[test]
fn csv_table_splits_headers_and_truncates() {
    let mut text = String::from("h1,h2,h3\n");
    for i in 0..120 {
        text.push_str(&format!("a{},b{},c{}\n", i, i, i));
    }
    let chars: Vec<char> = text.chars().collect();
    let (headers, rows) = extract_csv_table(&chars);
    assert_eq!(headers, vec!["h1", "h2", "h3"]);
    // one hundred data rows plus the truncation note
    assert_eq!(rows.len(), 101);
    assert_eq!(rows[0], vec!["a0", "b0", "c0"]);
    assert_eq!(rows[99], vec!["a99", "b99", "c99"]);
    assert_eq!(rows[100], vec!["... (showing first 100 of 120 rows)"]);
}

#[test]
fn csv_table_with_quoted_fields() {
    let chars: Vec<char> = "name,\"note, long\"\nx,\"says \"\"hi\"\"\"\n".chars().collect();
    let (headers, rows) = extract_csv_table(&chars);
    assert_eq!(headers, vec!["name", "note, long"]);
    assert_eq!(rows, vec![vec!["x", "says \"hi\""]]);
}

#[test]
fn csv_table_caps_columns() {
    let mut header = String::new();
    for i in 0..25 {
        if i > 0 {
            header.push(',');
        }
        header.push_str(&format!("c{}", i));
    }
    header.push('\n');
    let chars: Vec<char> = header.chars().collect();
    let (headers, rows) = extract_csv_table(&chars);
    assert_eq!(headers.len(), 20);
    assert_eq!(headers[19], "c19");
    assert!(rows.is_empty());
}

#[test]
fn xlsx_table_reads_first_sheet() {
    // a minimal workbook with one sheet of inline strings and numbers
    let mut buf: Vec<u8> = Vec::new();
    {
        let cursor = std::io::Cursor::new(&mut buf);
        let mut zipw = zip::ZipWriter::new(cursor);
        let opts: zip::write::SimpleFileOptions = Default::default();
        let mut put = |name: &str, data: &str| {
            zipw.start_file(name, opts).unwrap();
            std::io::Write::write_all(&mut zipw, data.as_bytes()).unwrap();
        };
        put(
            "[Content_Types].xml",
            r#"<?xml version="1.0" encoding="UTF-8" standalone="yes"?>
<Types xmlns="http://schemas.openxmlformats.org/package/2006/content-types">
<Default Extension="rels" ContentType="application/vnd.openxmlformats-package.relationships+xml"/>
<Default Extension="xml" ContentType="application/xml"/>
<Override PartName="/xl/workbook.xml" ContentType="application/vnd.openxmlformats-officedocument.spreadsheetml.sheet.main+xml"/>
<Override PartName="/xl/worksheets/sheet1.xml" ContentType="application/vnd.openxmlformats-officedocument.spreadsheetml.worksheet+xml"/>
</Types>"#,
        );
        put(
            "_rels/.rels",
            r#"<?xml version="1.0" encoding="UTF-8" standalone="yes"?>
<Relationships xmlns="http://schemas.openxmlformats.org/package/2006/relationships">
<Relationship Id="rId1" Type="http://schemas.openxmlformats.org/officeDocument/2006/relationships/officeDocument" Target="xl/workbook.xml"/>
</Relationships>"#,
        );
        put(
            "xl/workbook.xml",
            r#"<?xml version="1.0" encoding="UTF-8" standalone="yes"?>
<workbook xmlns="http://schemas.openxmlformats.org/spreadsheetml/2006/main" xmlns:r="http://schemas.openxmlformats.org/officeDocument/2006/relationships">
<sheets><sheet name="Data" sheetId="1" r:id="rId1"/></sheets>
</workbook>"#,
        );
        put(
            "xl/_rels/workbook.xml.rels",
            r#"<?xml version="1.0" encoding="UTF-8" standalone="yes"?>
<Relationships xmlns="http://schemas.openxmlformats.org/package/2006/relationships">
<Relationship Id="rId1" Type="http://schemas.openxmlformats.org/officeDocument/2006/relationships/worksheet" Target="worksheets/sheet1.xml"/>
</Relationships>"#,
        );
        put(
            "xl/worksheets/sheet1.xml",
            r#"<?xml version="1.0" encoding="UTF-8" standalone="yes"?>
<worksheet xmlns="http://schemas.openxmlformats.org/spreadsheetml/2006/main">
<sheetData>
<row r="1"><c r="A1" t="inlineStr"><is><t>name</t></is></c><c r="B1" t="inlineStr"><is><t>count</t></is></c></row>
<row r="2"><c r="A2" t="inlineStr"><is><t>apples</t></is></c><c r="B2"><v>3</v></c></row>
</sheetData>
</worksheet>"#,
        );
        zipw.finish().unwrap();
    }
    let (headers, rows, sheet) = file_lister::docparse::extract_xlsx_table(&buf).unwrap();
    assert_eq!(sheet.as_deref(), Some("Data"));
    assert_eq!(headers, vec!["name", "count"]);
    assert_eq!(rows, vec![vec!["apples".to_string(), "3".to_string()]]);
}

#[test]
fn xlsx_rejects_garbage() {
    let err = file_lister::docparse::extract_xlsx_table(&vec![9, 9, 9]).unwrap_err();
    assert!(err.starts_with("Failed to open XLSX: "), "got: {}", err);
}

#[test]
fn audio_metadata_derivation() {
    let m = audio_metadata_from_params(
        Some(441000),
        Some(44100),
        Some(2),
        Some("mp3".to_string()),
        Some(16),
    );
    assert_eq!(m.duration_millis, Some(10000));
    assert_eq!(m.sample_rate, Some(44100));
    assert_eq!(m.channels, Some(2));
    assert_eq!(m.codec.as_deref(), Some("mp3"));
    assert_eq!(m.bitrate, Some(16 * 44100));
    let m = audio_metadata_from_params(Some(1000), None, None, None, None);
    assert_eq!(m.duration_millis, None);
    assert_eq!(m.bitrate, None);
    let m = audio_metadata_from_params(Some(1000), Some(0), None, None, Some(8));
    assert_eq!(m.duration_millis, None);
    assert_eq!(m.bitrate, Some(0));
}
