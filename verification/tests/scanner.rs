use nodi::errors::ScanError;
use nodi::hex::to_hex;
use nodi::index::MarkdownFile;
use nodi::scan::Scanner;

fn scan_one_chunk(content: &[u8]) -> Result<(String, Vec<String>), ScanError> {
    let f = MarkdownFile::new(String::from("doc.md"), content)?;
    Ok((f.hash, f.references))
}

fn scan_chunked(content: &[u8], chunk_size: usize) -> Result<(String, Vec<String>), ScanError> {
    let mut scanner = Scanner::new();
    for chunk in content.chunks(chunk_size.max(1)) {
        scanner.push_chunk(chunk);
    }
    let out = scanner.finish()?;
    Ok((out.fingerprint, out.references))
}

#[test]
fn empty_document_fingerprint_and_tokens() {
    let (hash, refs) = scan_one_chunk(b"").unwrap();
    assert_eq!(hash, "d41d8cd98f00b204e9800998ecf8427e");
    assert!(refs.is_empty());
}

#[test]
fn known_fingerprint() {
    let (hash, refs) = scan_one_chunk(b"hello world").unwrap();
    assert_eq!(hash, "5eb63bbbe01eeed093cb22bb8f5acdc3");
    assert!(refs.is_empty());
}

#[test]
fn two_tokens_in_order() {
    let (_, refs) = scan_one_chunk(b"a [[b]] c [[d]] e").unwrap();
    assert_eq!(refs, vec!["b".to_string(), "d".to_string()]);
}

#[test]
fn unterminated_token_is_discarded() {
    let (_, refs) = scan_one_chunk(b"x [[y] z").unwrap();
    assert!(refs.is_empty());
}

#[test]
fn duplicate_tokens_preserved() {
    let (_, refs) = scan_one_chunk(b"[[a]][[a]]").unwrap();
    assert_eq!(refs, vec!["a".to_string(), "a".to_string()]);
}

#[test]
fn chunking_does_not_change_result() {
    let content: &[u8] = b"intro [[alpha]] middle [[beta/gamma]] end [[delta";
    let whole = scan_one_chunk(content).unwrap();
    for chunk_size in 1..=content.len() {
        let split = scan_chunked(content, chunk_size).unwrap();
        assert_eq!(whole, split);
    }
}

#[test]
fn token_straddling_chunk_boundary() {
    let mut scanner = Scanner::new();
    scanner.push_chunk(b"see [[lo");
    scanner.push_chunk(b"ng-name]] done");
    let out = scanner.finish().unwrap();
    assert_eq!(out.references, vec!["long-name".to_string()]);
}

#[test]
fn delimiters_straddling_chunk_boundary() {
    let mut scanner = Scanner::new();
    scanner.push_chunk(b"a [");
    scanner.push_chunk(b"[b]");
    scanner.push_chunk(b"] c");
    let out = scanner.finish().unwrap();
    assert_eq!(out.references, vec!["b".to_string()]);
}

#[test]
fn single_brackets_do_not_open_or_close() {
    let (_, refs) = scan_one_chunk(b"a [ b ] c [x] [ [ y ] ]").unwrap();
    assert!(refs.is_empty());
}

#[test]
fn empty_token() {
    let (_, refs) = scan_one_chunk(b"[[]]").unwrap();
    assert_eq!(refs, vec!["".to_string()]);
}

#[test]
fn invalid_utf8_token_fails_scan() {
    let content: &[u8] = &[b'[', b'[', 0xff, 0xfe, b']', b']'];
    let r = MarkdownFile::new(String::from("doc.md"), content);
    assert!(matches!(r, Err(ScanError::TokenDecodeFailure)));
}

#[test]
fn invalid_utf8_outside_tokens_is_fine() {
    let content: &[u8] = &[0xff, b' ', b'[', b'[', b'a', b']', b']', b' ', 0xfe];
    let f = MarkdownFile::new(String::from("doc.md"), content).unwrap();
    assert_eq!(f.references, vec!["a".to_string()]);
}

#[test]
fn fingerprint_covers_token_bytes_too() {
    let (h1, _) = scan_one_chunk(b"a [[b]] c").unwrap();
    let (h2, _) = scan_one_chunk(b"a [[x]] c").unwrap();
    assert_ne!(h1, h2);
}

#[test]
fn hex_rendering_exact() {
    assert_eq!(to_hex(&vec![]), "");
    assert_eq!(to_hex(&vec![0x00, 0x0f, 0xa5, 0xff]), "000fa5ff");
}

#[test]
fn markdown_file_fields() {
    let f = MarkdownFile::new(String::from("notes/today.md"), b"see [[tomorrow]]").unwrap();
    assert_eq!(f.path, "notes/today.md");
    assert_eq!(f.hash.len(), 32);
    assert!(f.hash.chars().all(|c| c.is_ascii_hexdigit() && !c.is_ascii_uppercase()));
    assert_eq!(f.references, vec!["tomorrow".to_string()]);
}
