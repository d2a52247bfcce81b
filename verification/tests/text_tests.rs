use grpcbench::text::{center_text, escape, host_from_url, parse_usize, redact_url, truncate, UrlError};

#[test]
fn extracts_tls_host_without_port() {
    assert_eq!(
        host_from_url("https://fra.example.com:443/path").expect("host"),
        "fra.example.com"
    );
}

#[test]
fn html_escape_covers_basic_entities() {
    assert_eq!(escape("<a&b>\"'"), "&lt;a&amp;b&gt;&quot;&#39;");
}

#[test]
fn center_text_adds_left_padding() {
    assert_eq!(center_text("RPC Fast", 12), "  RPC Fast");
    assert_eq!(center_text("RPC Fast", 8), "RPC Fast");
}

#[test]
fn host_from_url_strips_brackets_and_ports() {
    assert_eq!(host_from_url("http://[fe80]:8080/x").expect("host"), "fe80");
    assert_eq!(host_from_url("https://example.com").expect("host"), "example.com");
    assert_eq!(host_from_url("example.com:443"), Err(UrlError::MissingScheme));
}

#[test]
fn redact_url_drops_query_string() {
    assert_eq!(redact_url("https://a.example.com/path?token=x"), "https://a.example.com/path");
    assert_eq!(redact_url("https://a.example.com"), "https://a.example.com");
}

#[test]
fn truncate_marks_cut_text() {
    assert_eq!(truncate("abcdef", 4), "abc~");
    assert_eq!(truncate("abcdef", 1), "~");
    assert_eq!(truncate("abcdef", 0), "");
    assert_eq!(truncate("abc", 3), "abc");
    assert_eq!(truncate("abc", 10).chars().count(), 3);
}

#[test]
fn escaped_text_has_no_markup_characters() {
    let escaped = escape("<script>alert('x & \"y\"')</script>");
    assert!(!escaped.contains('<'));
    assert!(!escaped.contains('>'));
    assert!(!escaped.contains('"'));
    assert!(!escaped.contains('\''));
}

#[test]
fn parse_usize_reads_like_std() {
    for text in ["0", "80", "+80", "007", "18446744073709551615", "", "+", "-1", " 80", "80x", "18446744073709551616"] {
        assert_eq!(parse_usize(text), text.parse::<usize>().ok(), "{text}");
    }
}

#[test]
fn escaped_text_decodes_back() {
    let value = "<a href=\"x\">Tom & Jerry's</a> &amp;";
    let escaped = escape(value);
    let decoded = escaped
        .replace("&lt;", "<")
        .replace("&gt;", ">")
        .replace("&quot;", "\"")
        .replace("&#39;", "'")
        .replace("&amp;", "&");
    assert_eq!(decoded, value);
    assert_eq!(escape("plain text 123"), "plain text 123");
}
