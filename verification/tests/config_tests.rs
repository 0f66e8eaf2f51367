use rag_system_mini::utils::config::parse_config;
use rag_system_mini::utils::config::ConfigError;

#[test]
fn parse_valid_config() {
    let text = "[models]\nembedding_model = \"text-embedding-ada-002\"\nrag_model = \"gpt-4\"\n\n[documents]\ndocuments_dir = \"documents\"\npdf1 = \"Quantum_Mechanics.pdf\"\npdf2 = \"Modern_Physics.pdf\"\n";
    let c = parse_config(text).expect("valid configuration must parse");
    assert_eq!(c.models.embedding_model, "text-embedding-ada-002");
    assert_eq!(c.models.rag_model, "gpt-4");
    assert_eq!(c.documents.documents_dir, "documents");
    assert_eq!(c.documents.pdf1, "Quantum_Mechanics.pdf");
    assert_eq!(c.documents.pdf2, "Modern_Physics.pdf");
}

#[test]
fn parse_tolerates_comments_whitespace_and_unknown_items() {
    let text = "# top comment\n\n[ models ]\n  embedding_model = \"e\"  \n\trag_model = \"r\"\nextra_key = \"ignored\"\n[future]\nanything = \"ignored\"\n[documents]\ndocuments_dir = \"d\"\npdf1 = \"a.pdf\"\npdf2 = \"b.pdf\"";
    let c = parse_config(text).expect("configuration with comments must parse");
    assert_eq!(c.models.embedding_model, "e");
    assert_eq!(c.models.rag_model, "r");
    assert_eq!(c.documents.documents_dir, "d");
}

#[test]
fn parse_accepts_windows_line_endings() {
    let text = "[models]\r\nembedding_model = \"e\"\r\nrag_model = \"r\"\r\n[documents]\r\ndocuments_dir = \"d\"\r\npdf1 = \"a.pdf\"\r\npdf2 = \"b.pdf\"\r\n";
    let c = parse_config(text).expect("CRLF configuration must parse");
    assert_eq!(c.documents.pdf2, "b.pdf");
}

#[test]
fn parse_missing_field_is_reported() {
    let text = "[models]\nembedding_model = \"e\"\nrag_model = \"r\"\n[documents]\ndocuments_dir = \"d\"\npdf1 = \"a.pdf\"\n";
    assert_eq!(parse_config(text).unwrap_err(), ConfigError::MissingField);
}

#[test]
fn parse_empty_text_is_missing_field() {
    assert_eq!(parse_config("").unwrap_err(), ConfigError::MissingField);
}

#[test]
fn parse_malformed_line_is_reported() {
    let text = "[models]\nembedding_model = unquoted\n";
    assert_eq!(parse_config(text).unwrap_err(), ConfigError::Malformed);
}

#[test]
fn parse_unterminated_header_is_malformed() {
    assert_eq!(parse_config("[models\n").unwrap_err(), ConfigError::Malformed);
}

#[test]
fn parse_duplicate_key_is_malformed() {
    let text = "[models]\nembedding_model = \"e\"\nembedding_model = \"f\"\n";
    assert_eq!(parse_config(text).unwrap_err(), ConfigError::Malformed);
}

#[test]
fn parse_empty_value_for_recognized_key_is_malformed() {
    let text = "[models]\nembedding_model = \"\"\n";
    assert_eq!(parse_config(text).unwrap_err(), ConfigError::Malformed);
}

#[test]
fn parse_key_outside_recognized_groups_is_ignored() {
    let text = "embedding_model = \"lost\"\n[models]\nembedding_model = \"e\"\nrag_model = \"r\"\n[documents]\ndocuments_dir = \"d\"\npdf1 = \"a.pdf\"\npdf2 = \"b.pdf\"\n";
    let c = parse_config(text).expect("top-level keys are ignored");
    assert_eq!(c.models.embedding_model, "e");
}
