use ontologos::format::{detect_format_from_bytes, detect_format_from_header, detect_functional_from_bytes, format_for_extension, Format};
use std::path::Path;

#[test]
fn detect_functional_from_bytes_header() {
    let header = b"Prefix(:=<http://example.org/>)\nOntology(<http://example.org/o>)";
    assert!(detect_functional_from_bytes(header));
    assert_eq!(detect_format_from_bytes(header), Some(Format::Functional));
}

#[test]
fn detect_format_from_bytes_owl_xml() {
    let header = br#"<?xml version="1.0"?><Ontology xmlns="http://www.w3.org/2002/07/owl#"/>"#;
    assert_eq!(detect_format_from_bytes(header), Some(Format::OwlXml));
}

#[test]
fn detect_format_from_bytes_rdf_xml() {
    let header = br#"<?xml version="1.0"?><rdf:RDF/>"#;
    assert_eq!(detect_format_from_bytes(header), Some(Format::RdfXml));
}

#[test]
fn header_sniffing_falls_back_to_turtle_and_functional() {
    assert!(matches!(detect_format_from_header(b"<rdf:RDF>"), Some(Format::RdfXml)));
    assert!(matches!(detect_format_from_header(b"@prefix ex: <http://ex.org/> ."), Some(Format::Turtle)));
    assert!(matches!(detect_format_from_header(b"Prefix(:=<http://ex.org/>)\nOntology()"), Some(Format::Functional)));
    assert!(detect_format_from_header(b"hello").is_none());
}

/// The format a path's extension gives, as the file-reading front end asks it (none of these
/// extensions needs the file's header).
fn detect_format(path: &Path) -> Option<Format> {
    let ext = path.extension()?.to_str()?;
    format_for_extension(ext, None)
}

#[test]
fn detect_format_by_extension() {
    assert_eq!(detect_format(Path::new("p.rdf")), Some(Format::RdfXml));
    assert_eq!(detect_format(Path::new("p.ttl")), Some(Format::Turtle));
    assert_eq!(detect_format(Path::new("p.turtle")), Some(Format::Turtle));
    assert_eq!(detect_format(Path::new("p.ofn")), Some(Format::Functional));
    assert_eq!(detect_format(Path::new("p.func")), Some(Format::Functional));
    assert_eq!(detect_format(Path::new("p.txt")), None);
    assert_eq!(detect_format(Path::new("noext")), None);
}
