use honeycomb::{
    assemble_output, AbxError, BinaryXmlDeserializer, Policy, ATTRIBUTE, END_DOCUMENT, END_TAG,
    START_TAG, TYPE_BOOLEAN_FALSE, TYPE_BOOLEAN_TRUE, TYPE_BYTES_BASE64, TYPE_BYTES_HEX,
    TYPE_DOUBLE, TYPE_FLOAT, TYPE_INT, TYPE_INT_HEX, TYPE_LONG, TYPE_LONG_HEX, TYPE_STRING,
    TYPE_STRING_INTERNED,
};

const XML_HEADER: &str = "<?xml version=\"1.0\" encoding=\"UTF-8\"?>";

fn magic() -> Vec<u8> {
    vec![0x41, 0x42, 0x58, 0x00]
}

fn push_utf(v: &mut Vec<u8>, s: &str) {
    let b = s.as_bytes();
    v.extend_from_slice(&(b.len() as u16).to_be_bytes());
    v.extend_from_slice(b);
}

fn push_interned_new(v: &mut Vec<u8>, s: &str) {
    v.extend_from_slice(&[0xFF, 0xFF]);
    push_utf(v, s);
}

fn push_interned_ref(v: &mut Vec<u8>, idx: u16) {
    v.extend_from_slice(&idx.to_be_bytes());
}

fn decode_ok(data: Vec<u8>, collect: bool) -> (String, Vec<Policy>, u64, Vec<AbxError>) {
    let mut d = BinaryXmlDeserializer::new(data, collect).unwrap();
    d.deserialize().unwrap();
    let out = assemble_output(d.output_pieces(), &Vec::new()).unwrap();
    (
        out,
        d.get_policies().clone(),
        *d.get_restriction_node_offset(),
        d.warnings().clone(),
    )
}

/// One tag `<t x=...>` with a single attribute of the given type and payload.
fn single_attr_stream(type_tag: u8, payload: &[u8]) -> Vec<u8> {
    let mut v = magic();
    v.push(START_TAG | TYPE_STRING_INTERNED);
    push_interned_new(&mut v, "t");
    v.push(ATTRIBUTE | type_tag);
    push_interned_new(&mut v, "x");
    v.extend_from_slice(payload);
    v.push(END_TAG | TYPE_STRING_INTERNED);
    push_interned_ref(&mut v, 0);
    v.push(END_DOCUMENT);
    v
}

#[test]
fn end_to_end_int_attribute() {
    let mut v = magic();
    v.push(START_TAG | TYPE_STRING_INTERNED);
    push_interned_new(&mut v, "root");
    v.push(START_TAG | TYPE_STRING_INTERNED);
    push_interned_new(&mut v, "a");
    v.push(ATTRIBUTE | TYPE_INT);
    push_interned_new(&mut v, "x");
    v.extend_from_slice(&1i32.to_be_bytes());
    v.push(END_TAG | TYPE_STRING_INTERNED);
    push_interned_ref(&mut v, 1);
    v.push(END_TAG | TYPE_STRING_INTERNED);
    push_interned_ref(&mut v, 0);
    v.push(END_DOCUMENT);
    let (out, _, _, warnings) = decode_ok(v, false);
    assert_eq!(
        out,
        format!("{}<root><a x=\"1\"></a></root>", XML_HEADER)
    );
    assert_eq!(warnings.len(), 0);
}

#[test]
fn attr_type_string_is_escaped() {
    let mut payload = Vec::new();
    push_utf(&mut payload, "a<b&c>d\"e'f");
    let (out, _, _, _) = single_attr_decoded(TYPE_STRING, &payload);
    assert!(out.contains(" x=\"a&lt;b&amp;c&gt;d&quot;e&apos;f\""));
}

fn single_attr_decoded(type_tag: u8, payload: &[u8]) -> (String, Vec<Policy>, u64, Vec<AbxError>) {
    decode_ok(single_attr_stream(type_tag, payload), false)
}

#[test]
fn attr_type_string_interned_defines_and_escapes() {
    let mut payload = Vec::new();
    payload.extend_from_slice(&[0xFF, 0xFF]);
    push_utf(&mut payload, "v<w");
    let (out, _, _, _) = single_attr_decoded(TYPE_STRING_INTERNED, &payload);
    assert!(out.contains(" x=\"v&lt;w\""));
}

#[test]
fn attr_type_int_renders_decimal() {
    let (out, _, _, _) = single_attr_decoded(TYPE_INT, &(-5i32).to_be_bytes());
    assert!(out.contains(" x=\"-5\""));
}

#[test]
fn attr_type_int_hex_renders_uppercase_with_prefix() {
    let (out, _, _, _) = single_attr_decoded(TYPE_INT_HEX, &255i32.to_be_bytes());
    assert!(out.contains(" x=\"0xFF\""));
}

#[test]
fn attr_type_int_hex_negative_renders_bits() {
    let (out, _, _, _) = single_attr_decoded(TYPE_INT_HEX, &(-1i32).to_be_bytes());
    assert!(out.contains(" x=\"0xFFFFFFFF\""));
}

#[test]
fn attr_type_long_renders_decimal() {
    let (out, _, _, _) = single_attr_decoded(TYPE_LONG, &(-9876543210i64).to_be_bytes());
    assert!(out.contains(" x=\"-9876543210\""));
}

#[test]
fn attr_type_long_hex_renders_bits() {
    let (out, _, _, _) = single_attr_decoded(TYPE_LONG_HEX, &(-1i64).to_be_bytes());
    assert!(out.contains(" x=\"0xFFFFFFFFFFFFFFFF\""));
}

#[test]
fn attr_type_booleans_render_literals() {
    let (out_t, _, _, _) = single_attr_decoded(TYPE_BOOLEAN_TRUE, &[]);
    assert!(out_t.contains(" x=\"true\""));
    let (out_f, _, _, _) = single_attr_decoded(TYPE_BOOLEAN_FALSE, &[]);
    assert!(out_f.contains(" x=\"false\""));
}

#[test]
fn attr_type_bytes_hex_renders_uppercase() {
    let mut payload = Vec::new();
    payload.extend_from_slice(&2u16.to_be_bytes());
    payload.extend_from_slice(&[0xAB, 0xCD]);
    let (out, _, _, _) = single_attr_decoded(TYPE_BYTES_HEX, &payload);
    assert!(out.contains(" x=\"ABCD\""));
}

#[test]
fn attr_type_bytes_base64_renders_standard() {
    let mut payload = Vec::new();
    payload.extend_from_slice(&3u16.to_be_bytes());
    payload.extend_from_slice(&[1, 2, 3]);
    let (out, _, _, _) = single_attr_decoded(TYPE_BYTES_BASE64, &payload);
    assert!(out.contains(" x=\"AQID\""));
    let mut payload2 = Vec::new();
    payload2.extend_from_slice(&1u16.to_be_bytes());
    payload2.push(0xFF);
    let (out2, _, _, _) = single_attr_decoded(TYPE_BYTES_BASE64, &payload2);
    assert!(out2.contains(" x=\"/w==\""));
}

#[test]
fn attr_type_float_bits_pass_through_caller_rendering() {
    let bits = 1.5f32.to_bits();
    let v = single_attr_stream(TYPE_FLOAT, &bits.to_be_bytes());
    let mut d = BinaryXmlDeserializer::new(v, false).unwrap();
    d.deserialize().unwrap();
    let mut texts: Vec<String> = Vec::new();
    for p in d.output_pieces().iter() {
        if let honeycomb::OutPiece::Float(b) = p {
            texts.push(format!("{}", f32::from_bits(*b)));
        }
    }
    assert_eq!(texts, vec!["1.5".to_string()]);
    let out = assemble_output(d.output_pieces(), &texts).unwrap();
    assert!(out.contains(" x=\"1.5\""));
    assert!(assemble_output(d.output_pieces(), &Vec::new()).is_none());
}

#[test]
fn attr_type_double_bits_pass_through_caller_rendering() {
    let bits = 2.25f64.to_bits();
    let v = single_attr_stream(TYPE_DOUBLE, &bits.to_be_bytes());
    let mut d = BinaryXmlDeserializer::new(v, false).unwrap();
    d.deserialize().unwrap();
    let mut texts: Vec<String> = Vec::new();
    for p in d.output_pieces().iter() {
        if let honeycomb::OutPiece::Double(b) = p {
            texts.push(format!("{}", f64::from_bits(*b)));
        }
    }
    assert_eq!(texts, vec!["2.25".to_string()]);
    let out = assemble_output(d.output_pieces(), &texts).unwrap();
    assert!(out.contains(" x=\"2.25\""));
}

#[test]
fn unknown_attribute_type_warns_and_keeps_prior_output() {
    let mut v = magic();
    v.push(START_TAG | TYPE_STRING_INTERNED);
    push_interned_new(&mut v, "t");
    v.push(ATTRIBUTE | TYPE_STRING);
    push_interned_new(&mut v, "x");
    push_utf(&mut v, "v");
    // nibble 0x10 is no known attribute value type
    v.push(ATTRIBUTE | 0x10);
    push_interned_new(&mut v, "y");
    v.push(END_DOCUMENT);
    let (out, _, _, warnings) = decode_ok(v, false);
    assert!(out.contains(" x=\"v\""));
    assert!(out.ends_with(" y=\""));
    assert_eq!(warnings.len(), 1);
    assert!(matches!(warnings[0], AbxError::UnknownAttributeType(0x10)));
}

#[test]
fn interned_string_round_trip_is_identical() {
    let mut v = magic();
    v.push(START_TAG | TYPE_STRING_INTERNED);
    push_interned_new(&mut v, "node");
    v.push(END_TAG | TYPE_STRING_INTERNED);
    push_interned_ref(&mut v, 0);
    v.push(START_TAG | TYPE_STRING_INTERNED);
    push_interned_ref(&mut v, 0);
    v.push(END_TAG | TYPE_STRING_INTERNED);
    push_interned_ref(&mut v, 0);
    v.push(END_DOCUMENT);
    let (out, _, _, warnings) = decode_ok(v, false);
    assert_eq!(
        out,
        format!("{}<node></node><node></node>", XML_HEADER)
    );
    assert_eq!(warnings.len(), 0);
}

#[test]
fn out_of_range_interned_index_stops_with_warning() {
    let mut v = magic();
    v.push(START_TAG | TYPE_STRING_INTERNED);
    push_interned_ref(&mut v, 5);
    v.push(END_DOCUMENT);
    let (out, _, _, warnings) = decode_ok(v, false);
    assert_eq!(out, XML_HEADER);
    assert_eq!(warnings.len(), 1);
    assert!(matches!(
        warnings[0],
        AbxError::InvalidInternedStringIndex(5)
    ));
}

#[test]
fn truncated_int_attribute_stops_with_field_error() {
    let mut v = magic();
    v.push(START_TAG | TYPE_STRING_INTERNED);
    push_interned_new(&mut v, "t");
    v.push(ATTRIBUTE | TYPE_INT);
    push_interned_new(&mut v, "x");
    v.extend_from_slice(&[0, 0]);
    let (_, _, _, warnings) = decode_ok(v, false);
    assert_eq!(warnings.len(), 1);
    match &warnings[0] {
        AbxError::ReadError(k) => assert_eq!(k, "int"),
        other => panic!("unexpected warning: {:?}", other),
    }
}

#[test]
fn bad_magic_header_is_a_hard_error() {
    let r = BinaryXmlDeserializer::new(vec![0x41, 0x42], false);
    match r {
        Err(AbxError::ReadError(k)) => assert_eq!(k, "magic header"),
        other => panic!("unexpected: {:?}", other.map(|_| ())),
    }
    let r2 = BinaryXmlDeserializer::new(vec![0x41, 0x42, 0x58, 0x01, 0x00], false);
    match r2 {
        Err(AbxError::InvalidMagicHeader { expected, actual }) => {
            assert_eq!(expected, [0x41, 0x42, 0x58, 0x00]);
            assert_eq!(actual, [0x41, 0x42, 0x58, 0x01]);
        },
        other => panic!("unexpected: {:?}", other.map(|_| ())),
    }
}

#[test]
fn text_cdata_comment_and_friends_render() {
    let mut v = magic();
    v.push(START_TAG | TYPE_STRING_INTERNED);
    push_interned_new(&mut v, "t");
    v.push(honeycomb::TEXT | TYPE_STRING);
    push_utf(&mut v, "a&b");
    v.push(honeycomb::CDSECT | TYPE_STRING);
    push_utf(&mut v, "raw<>&");
    v.push(honeycomb::COMMENT | TYPE_STRING);
    push_utf(&mut v, "note");
    v.push(honeycomb::PROCESSING_INSTRUCTION | TYPE_STRING);
    push_utf(&mut v, "pi");
    v.push(honeycomb::DOCDECL | TYPE_STRING);
    push_utf(&mut v, "doc");
    v.push(honeycomb::ENTITY_REF | TYPE_STRING);
    push_utf(&mut v, "amp");
    v.push(honeycomb::IGNORABLE_WHITESPACE | TYPE_STRING);
    push_utf(&mut v, "  ");
    v.push(END_TAG | TYPE_STRING_INTERNED);
    push_interned_ref(&mut v, 0);
    v.push(END_DOCUMENT);
    let (out, _, _, warnings) = decode_ok(v, false);
    assert_eq!(warnings.len(), 0);
    assert_eq!(
        out,
        format!(
            "{}<t>a&amp;b<![CDATA[raw<>&]]><!--note--><?pi?><!DOCTYPE doc>&amp;  </t>",
            XML_HEADER
        )
    );
}

#[test]
fn empty_text_emits_nothing() {
    let mut v = magic();
    v.push(START_TAG | TYPE_STRING_INTERNED);
    push_interned_new(&mut v, "t");
    v.push(honeycomb::TEXT | TYPE_STRING);
    push_utf(&mut v, "");
    v.push(END_TAG | TYPE_STRING_INTERNED);
    push_interned_ref(&mut v, 0);
    v.push(END_DOCUMENT);
    let (out, _, _, _) = decode_ok(v, false);
    assert_eq!(out, format!("{}<t></t>", XML_HEADER));
}

#[test]
fn unknown_command_is_skipped() {
    let mut v = magic();
    v.push(START_TAG | TYPE_STRING_INTERNED);
    push_interned_new(&mut v, "t");
    v.push(END_TAG | TYPE_STRING_INTERNED);
    push_interned_ref(&mut v, 0);
    v.push(0x0B); // a command value outside the known set
    v.push(END_DOCUMENT);
    let (out, _, _, warnings) = decode_ok(v, false);
    assert_eq!(out, format!("{}<t></t>", XML_HEADER));
    assert_eq!(warnings.len(), 0);
}

#[test]
fn policies_record_exact_byte_ranges() {
    let mut v = magic();
    v.push(START_TAG | TYPE_STRING_INTERNED);
    push_interned_new(&mut v, "t");
    let attr_start = v.len();
    v.push(ATTRIBUTE | TYPE_BOOLEAN_TRUE);
    push_interned_new(&mut v, "no_sms");
    let attr_end = v.len();
    v.push(END_TAG | TYPE_STRING_INTERNED);
    push_interned_ref(&mut v, 0);
    v.push(END_DOCUMENT);
    let (_, policies, _, _) = decode_ok(v, true);
    assert_eq!(policies.len(), 1);
    assert_eq!(policies[0].name, "no_sms");
    assert_eq!(policies[0].start_offset, attr_start as u32);
    assert_eq!(policies[0].end_offset, attr_end as u32);
}

#[test]
fn restriction_offset_follows_restrictions_after_restrictions_user() {
    let mut v = magic();
    v.push(START_TAG | TYPE_STRING_INTERNED);
    push_interned_new(&mut v, "restrictions_user");
    v.push(START_TAG | TYPE_STRING_INTERNED);
    push_interned_new(&mut v, "restrictions");
    let expected_offset = v.len() as u64;
    v.push(END_TAG | TYPE_STRING_INTERNED);
    push_interned_ref(&mut v, 1);
    v.push(END_TAG | TYPE_STRING_INTERNED);
    push_interned_ref(&mut v, 0);
    v.push(END_DOCUMENT);
    let (_, _, offset, _) = decode_ok(v, false);
    assert_eq!(offset, expected_offset);

    // Without a preceding restrictions_user tag the offset stays zero.
    let mut w = magic();
    w.push(START_TAG | TYPE_STRING_INTERNED);
    push_interned_new(&mut w, "restrictions");
    w.push(END_TAG | TYPE_STRING_INTERNED);
    push_interned_ref(&mut w, 0);
    w.push(END_DOCUMENT);
    let (_, _, offset2, _) = decode_ok(w, false);
    assert_eq!(offset2, 0);
}

#[test]
fn truncated_stream_keeps_output_written_so_far() {
    let mut v = magic();
    v.push(START_TAG | TYPE_STRING_INTERNED);
    push_interned_new(&mut v, "t");
    v.push(END_TAG | TYPE_STRING_INTERNED);
    // the interned reference is cut off after one byte
    v.push(0x00);
    let (out, _, _, warnings) = decode_ok(v, false);
    assert_eq!(out, format!("{}<t>", XML_HEADER));
    assert_eq!(warnings.len(), 1);
}
