use bittorrent_leech::bencode::{
    decode_bencoded_value, parse_bencoded_i64, parse_bencoded_string, parse_bencoded_value,
    BencodeValue,
};

fn show(v: &BencodeValue) -> String {
    match v {
        BencodeValue::Int(i) => i.to_string(),
        BencodeValue::Bytes(b) => format!("{:?}", String::from_utf8_lossy(b)),
        BencodeValue::List(items) => {
            format!("[{}]", items.iter().map(show).collect::<Vec<_>>().join(","))
        }
        BencodeValue::Dict(entries) => format!(
            "{{{}}}",
            entries
                .iter()
                .map(|(k, v)| format!("{:?}:{}", String::from_utf8_lossy(k), show(v)))
                .collect::<Vec<_>>()
                .join(",")
        ),
    }
}

#[test]
fn decodes_string() {
    let (v, rest) = parse_bencoded_string(b"5:helloXY").unwrap();
    assert_eq!(show(&v), "\"hello\"");
    assert_eq!(rest, b"XY");
    assert!(parse_bencoded_string(b"9:short").is_none());
    assert!(parse_bencoded_string(b"abc").is_none());
}

#[test]
fn decodes_integers() {
    let (v, rest) = parse_bencoded_i64(b"i52e").unwrap();
    assert_eq!(show(&v), "52");
    assert!(rest.is_empty());
    assert_eq!(show(&parse_bencoded_i64(b"i-42e").unwrap().0), "-42");
    assert_eq!(show(&parse_bencoded_i64(b"i-9223372036854775808e").unwrap().0), "-9223372036854775808");
    assert_eq!(show(&parse_bencoded_i64(b"i9223372036854775807e").unwrap().0), "9223372036854775807");
    assert!(parse_bencoded_i64(b"i9223372036854775808e").is_none());
    assert!(parse_bencoded_i64(b"ie").is_none());
    assert!(parse_bencoded_i64(b"i12").is_none());
    assert!(parse_bencoded_i64(b"i1x2e").is_none());
}

#[test]
fn decodes_nested_list() {
    let v = decode_bencoded_value(b"l5:helloi52ee").unwrap();
    assert_eq!(show(&v), "[\"hello\",52]");
    let v = decode_bencoded_value(b"lli4eei5ee").unwrap();
    assert_eq!(show(&v), "[[4],5]");
    assert_eq!(show(&decode_bencoded_value(b"le").unwrap()), "[]");
}

#[test]
fn decodes_dictionary() {
    let v = decode_bencoded_value(b"d3:foo3:bar5:helloi52ee").unwrap();
    assert_eq!(show(&v), "{\"foo\":\"bar\",\"hello\":52}");
    let v = decode_bencoded_value(b"d4:listl1:aee").unwrap();
    assert_eq!(show(&v), "{\"list\":[\"a\"]}");
}

#[test]
fn rejects_malformed_values() {
    assert!(decode_bencoded_value(b"").is_none());
    assert!(decode_bencoded_value(b"x").is_none());
    assert!(decode_bencoded_value(b"l5:hello").is_none());
    assert!(decode_bencoded_value(b"di1ei2ee").is_none());
    assert!(decode_bencoded_value(b"d3:foo").is_none());
}

#[test]
fn value_leaves_the_rest() {
    let (v, rest) = parse_bencoded_value(b"i1ei2e").unwrap();
    assert_eq!(show(&v), "1");
    assert_eq!(rest, b"i2e");
}
