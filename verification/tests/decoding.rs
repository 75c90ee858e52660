use xml_de::de_reader::{DeserializerReader, RootDeserializerReader};
use xml_de::errors::DeError;
use xml_de::events::Token;
use xml_de::seq::{Names, SeqAccess};
use xml_de::source::{RawToken, TokenSource};
use xml_de::var::EnumAccess;

fn st(n: &str) -> RawToken {
    RawToken::Significant(Token::StartTag(n.as_bytes().to_vec()))
}

fn et(n: &str) -> RawToken {
    RawToken::Significant(Token::EndTag(n.as_bytes().to_vec()))
}

fn tx(s: &str) -> RawToken {
    RawToken::Significant(Token::Text(s.as_bytes().to_vec()))
}

fn start(n: &str) -> Token {
    Token::StartTag(n.as_bytes().to_vec())
}

fn end(n: &str) -> Token {
    Token::EndTag(n.as_bytes().to_vec())
}

fn text(s: &str) -> Token {
    Token::Text(s.as_bytes().to_vec())
}

fn session(items: Vec<RawToken>) -> RootDeserializerReader {
    RootDeserializerReader::new(TokenSource::new(items))
}

/// Consumes one `<item>text</item>` element through the sequence
/// decoder's cursor and returns the text.
fn consume_item(seq: &mut SeqAccess, root: &mut RootDeserializerReader, name: &str) -> Vec<u8> {
    assert_eq!(seq.de.next(root).unwrap(), start(name));
    let content = match seq.de.next(root).unwrap() {
        Token::Text(c) => c,
        other => panic!("expected text content, got {:?}", other),
    };
    assert_eq!(seq.de.next(root).unwrap(), end(name));
    content
}

#[test]
fn sequence_ends_at_closing_tag() {
    let mut root = session(vec![
        st("list"),
        st("item"),
        tx("1"),
        et("item"),
        st("item"),
        tx("2"),
        et("item"),
        et("list"),
    ]);
    assert_eq!(root.next().unwrap(), start("list"));
    let child = root.child();
    let mut seq = SeqAccess::new(&mut root, child, false, None).unwrap();
    assert_eq!(seq.names, Names::ExpectedName(b"item".to_vec()));

    assert!(seq.next_element(&mut root).unwrap());
    assert_eq!(consume_item(&mut seq, &mut root, "item"), b"1".to_vec());
    assert!(seq.next_element(&mut root).unwrap());
    assert_eq!(consume_item(&mut seq, &mut root, "item"), b"2".to_vec());
    assert!(!seq.next_element(&mut root).unwrap());

    // The closing tag of the enclosing element is left for the parent.
    assert_eq!(root.next().unwrap(), end("list"));
}

#[test]
fn sequence_skips_non_matching_siblings() {
    let mut root = session(vec![
        st("item"),
        tx("1"),
        et("item"),
        st("other"),
        st("x"),
        et("x"),
        et("other"),
        st("item"),
        tx("2"),
        et("item"),
        et("list"),
    ]);
    let child = root.child();
    let mut seq = SeqAccess::new(&mut root, child, false, None).unwrap();

    assert!(seq.next_element(&mut root).unwrap());
    assert_eq!(consume_item(&mut seq, &mut root, "item"), b"1".to_vec());
    // The whole non-matching subtree is walked past without
    // miscounting nesting.
    assert!(seq.next_element(&mut root).unwrap());
    assert_eq!(consume_item(&mut seq, &mut root, "item"), b"2".to_vec());
    assert!(!seq.next_element(&mut root).unwrap());

    // What was only skipped, never consumed, is still pending for the
    // parent, in stream order.
    assert_eq!(root.next().unwrap(), start("other"));
    assert_eq!(root.next().unwrap(), start("x"));
    assert_eq!(root.next().unwrap(), end("x"));
    assert_eq!(root.next().unwrap(), end("other"));
    assert_eq!(root.next().unwrap(), end("list"));
    assert_eq!(root.next().unwrap(), Token::Eof);
}

#[test]
fn sequence_spent_bound_yields_nothing() {
    let mut root = session(vec![st("item"), tx("1"), et("item")]);
    let child = root.child();
    let mut seq = SeqAccess::new(&mut root, child, false, Some(0)).unwrap();
    assert!(!seq.next_element(&mut root).unwrap());
    assert_eq!(seq.size_hint(), Some(0));
}

#[test]
fn sequence_bound_counts_down() {
    let mut root = session(vec![
        st("item"),
        tx("1"),
        et("item"),
        st("item"),
        tx("2"),
        et("item"),
        et("list"),
    ]);
    let child = root.child();
    let mut seq = SeqAccess::new(&mut root, child, false, Some(1)).unwrap();
    assert!(seq.next_element(&mut root).unwrap());
    assert_eq!(consume_item(&mut seq, &mut root, "item"), b"1".to_vec());
    // The one permitted element has been produced.
    assert!(!seq.next_element(&mut root).unwrap());
    assert_eq!(seq.size_hint(), Some(0));
}

#[test]
fn sequence_unconstrained_mode_takes_any_value() {
    let mut root = session(vec![tx("hello"), et("list")]);
    let child = root.child();
    let mut seq = SeqAccess::new(&mut root, child, true, None).unwrap();
    assert_eq!(seq.names, Names::Unknown);
    assert!(seq.next_element(&mut root).unwrap());
    assert_eq!(seq.de.next(&mut root).unwrap(), text("hello"));
    assert!(!seq.next_element(&mut root).unwrap());
}

#[test]
fn sequence_mode_unconstrained_without_start_tag() {
    let mut root = session(vec![tx("hello")]);
    let child = root.child();
    let seq = SeqAccess::new(&mut root, child, false, None).unwrap();
    assert_eq!(seq.names, Names::Unknown);
}

#[test]
fn sequence_stops_at_end_of_stream() {
    let mut root = session(vec![st("item"), tx("1"), et("item")]);
    let child = root.child();
    let mut seq = SeqAccess::new(&mut root, child, false, None).unwrap();
    assert!(seq.next_element(&mut root).unwrap());
    assert_eq!(consume_item(&mut seq, &mut root, "item"), b"1".to_vec());
    // Truncated input must not loop forever: end of stream ends the
    // sequence.
    assert!(!seq.next_element(&mut root).unwrap());
}

#[test]
fn sequence_construction_propagates_read_failure() {
    let mut root = session(vec![RawToken::Malformed]);
    let child = root.child();
    assert_eq!(
        SeqAccess::new(&mut root, child, false, None).err(),
        Some(DeError::Read)
    );
}

#[test]
fn sequence_scan_propagates_read_failure() {
    let mut root = session(vec![st("item"), st("gap"), RawToken::Malformed]);
    let child = root.child();
    let mut seq = SeqAccess::new(&mut root, child, false, Some(2)).unwrap();
    assert!(seq.next_element(&mut root).unwrap());
    assert_eq!(seq.de.next(&mut root).unwrap(), start("item"));
    // Scanning for the next sibling runs into the malformed input.
    assert_eq!(seq.next_element(&mut root), Err(DeError::Read));
}

#[test]
fn enum_variant_by_tag_name() {
    let mut root = session(vec![st("Foo"), tx("payload"), et("Foo")]);
    let access = EnumAccess::new(root.child());
    let (discriminant, _variant) = access.variant_seed(&mut root).unwrap();
    assert_eq!(discriminant, b"Foo".to_vec());
}

#[test]
fn enum_variant_by_bare_text() {
    let mut root = session(vec![tx("Bar")]);
    let access = EnumAccess::new(root.child());
    let (discriminant, _variant) = access.variant_seed(&mut root).unwrap();
    assert_eq!(discriminant, b"Bar".to_vec());
}

#[test]
fn enum_selection_rejects_end_tag() {
    let mut root = session(vec![et("x")]);
    let access = EnumAccess::new(root.child());
    assert_eq!(
        access.variant_seed(&mut root).err(),
        Some(DeError::InvalidEnum(end("x")))
    );
}

#[test]
fn enum_selection_rejects_end_of_stream() {
    let mut root = session(vec![]);
    let access = EnumAccess::new(root.child());
    assert_eq!(
        access.variant_seed(&mut root).err(),
        Some(DeError::InvalidEnum(Token::Eof))
    );
}

#[test]
fn enum_selection_propagates_read_failure() {
    let mut root = session(vec![RawToken::Malformed]);
    let access = EnumAccess::new(root.child());
    assert_eq!(access.variant_seed(&mut root).err(), Some(DeError::Read));
}

#[test]
fn unit_variant_consumes_through_matching_end_tag() {
    let mut root = session(vec![
        st("V"),
        st("inner"),
        et("inner"),
        et("V"),
        tx("after"),
    ]);
    let access = EnumAccess::new(root.child());
    let (discriminant, mut variant) = access.variant_seed(&mut root).unwrap();
    assert_eq!(discriminant, b"V".to_vec());
    variant.unit_variant(&mut root).unwrap();
    // The cursor stands exactly after the matching end tag.
    assert_eq!(variant.de.next(&mut root).unwrap(), text("after"));
}

#[test]
fn unit_variant_from_text_consumes_only_the_text() {
    let mut root = session(vec![tx("Bar"), st("next")]);
    let access = EnumAccess::new(root.child());
    let (discriminant, mut variant) = access.variant_seed(&mut root).unwrap();
    assert_eq!(discriminant, b"Bar".to_vec());
    variant.unit_variant(&mut root).unwrap();
    assert_eq!(variant.de.next(&mut root).unwrap(), start("next"));
}

#[test]
fn unit_variant_reports_truncated_element() {
    let mut root = session(vec![st("V"), st("inner"), et("inner")]);
    let access = EnumAccess::new(root.child());
    let (_discriminant, mut variant) = access.variant_seed(&mut root).unwrap();
    assert_eq!(variant.unit_variant(&mut root), Err(DeError::UnexpectedEof));
}

#[test]
fn read_to_end_skips_nested_structure() {
    let mut root = session(vec![
        st("a"),
        tx("x"),
        st("b"),
        et("b"),
        et("a"),
        tx("after"),
    ]);
    let mut child = root.child();
    assert_eq!(child.next(&mut root).unwrap(), start("a"));
    let mut variant = xml_de::var::VariantAccess { de: child };
    variant.read_to_end(&mut root).unwrap();
    assert_eq!(variant.de.next(&mut root).unwrap(), text("after"));
}

#[test]
fn cdata_selects_no_variant() {
    let mut root = session(vec![RawToken::Significant(Token::CData(b"raw".to_vec()))]);
    let access = EnumAccess::new(root.child());
    assert_eq!(
        access.variant_seed(&mut root).err(),
        Some(DeError::InvalidEnum(Token::CData(b"raw".to_vec())))
    );
}

#[test]
fn sequence_walks_past_cdata() {
    let mut root = session(vec![
        st("item"),
        tx("1"),
        et("item"),
        RawToken::Significant(Token::CData(b"ignored".to_vec())),
        st("item"),
        tx("2"),
        et("item"),
        et("list"),
    ]);
    let child = root.child();
    let mut seq = SeqAccess::new(&mut root, child, false, None).unwrap();
    assert!(seq.next_element(&mut root).unwrap());
    assert_eq!(consume_item(&mut seq, &mut root, "item"), b"1".to_vec());
    assert!(seq.next_element(&mut root).unwrap());
    assert_eq!(consume_item(&mut seq, &mut root, "item"), b"2".to_vec());
    assert!(!seq.next_element(&mut root).unwrap());
}

#[test]
fn sequence_at_closing_tag_yields_nothing() {
    let mut root = session(vec![et("list")]);
    let child = root.child();
    let mut seq = SeqAccess::new(&mut root, child, false, None).unwrap();
    assert_eq!(seq.names, Names::Unknown);
    assert!(!seq.next_element(&mut root).unwrap());
    // The closing tag itself was not consumed.
    assert_eq!(root.next().unwrap(), end("list"));
}

#[test]
fn unit_variant_propagates_read_failure() {
    let mut root = session(vec![st("V"), st("inner"), RawToken::Malformed]);
    let access = EnumAccess::new(root.child());
    let (_discriminant, mut variant) = access.variant_seed(&mut root).unwrap();
    assert_eq!(variant.unit_variant(&mut root), Err(DeError::Read));
}
