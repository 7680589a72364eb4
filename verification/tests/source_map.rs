use gust::source_map::{construct_kind, json_escape, SourceMap};

const SLANG: &str = "// @rust kernel: demo::scale\nvoid scale(uint3 id : SV_DispatchThreadID) {\n    uint i = id.x;\n    if (i < 4) {\n        out[i] = 2;\n    }\n}\n// @rust kernel: demo::add\n    return x + y;\n";

#[test]
fn segments_follow_kernel_markers() {
    let map = SourceMap::from_slang(SLANG);
    let segments = map.segments();
    assert_eq!(segments.len(), 4);
    assert_eq!(segments[0].kernel, "demo::scale");
    assert_eq!(segments[0].construct, "local");
    assert_eq!((segments[0].start_line, segments[0].ordinal), (3, 0));
    assert_eq!(segments[1].construct, "conditional");
    assert_eq!(segments[2].construct, "assignment");
    assert_eq!(segments[3].kernel, "demo::add");
    assert_eq!((segments[3].construct, segments[3].ordinal), ("return", 0));
    assert_eq!(map.origin_at(4).unwrap().construct, "conditional");
    assert_eq!(map.origin_at(7).unwrap().construct, "assignment");
    assert_eq!(map.origin_at(9).unwrap().kernel, "demo::add");
    assert!(map.origin_at(2).is_none());
}

#[test]
fn json_escape_quotes_and_backslashes() {
    assert_eq!(json_escape("a\"b\\c"), "a\\\"b\\\\c");
    assert_eq!(json_escape("plain"), "plain");
}

#[test]
fn source_map_json_lists_segments() {
    let json = SourceMap::from_slang("// @rust kernel: k\nreturn 1;\n").json();
    assert_eq!(
        json,
        "{\n  \"schema_version\": 1,\n  \"segments\": [\n    {\"slang_start\":2,\"slang_end\":2,\"kernel\":\"k\",\"construct\":\"return\",\"ordinal\":0}\n  ]\n}\n"
    );
    assert_eq!(SourceMap::from_slang("").json(), "{\n  \"schema_version\": 1,\n  \"segments\": [\n  ]\n}\n");
}

#[test]
fn constructs_are_recognised_by_their_line() {
    assert_eq!(construct_kind("// @gust construct: match #1"), Some("match"));
    assert_eq!(construct_kind("for (var i = 0; i < n; i++)"), Some("loop"));
    assert_eq!(construct_kind("x == y;"), Some("expression"));
    assert_eq!(construct_kind("// comment;"), None);
    assert_eq!(construct_kind(";"), None);
    assert_eq!(construct_kind("}"), None);
}
