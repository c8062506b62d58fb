use block_benchie::escape::{escape_xml, escape_xml_attr, markdown_cell};

const VALUES: [&str; 9] = [
    "",
    "plain",
    "a & b < c > d \" e ' f",
    "&amp;",
    "&lt;|\\",
    "a|b\\c\nd\re",
    "\\|",
    "||\\\\",
    "größe & maß",
];

fn read_back(xml: &str) -> String {
    xml.replace("&lt;", "<")
        .replace("&gt;", ">")
        .replace("&quot;", "\"")
        .replace("&apos;", "'")
        .replace("&amp;", "&")
}

#[test]
fn xml_characters_become_entities() {
    assert_eq!(escape_xml("<a b=\"c\">'&'</a>"), "&lt;a b=&quot;c&quot;&gt;&apos;&amp;&apos;&lt;/a&gt;");
    for value in VALUES {
        let expected = value
            .replace('&', "&amp;")
            .replace('<', "&lt;")
            .replace('>', "&gt;")
            .replace('"', "&quot;")
            .replace('\'', "&apos;");
        assert_eq!(escape_xml(value), expected);
        assert_eq!(escape_xml_attr(value), expected);
    }
}

#[test]
fn escaped_xml_reads_back() {
    for value in VALUES {
        let escaped = escape_xml(value);
        assert_eq!(read_back(&escaped), value);
        assert!(!escaped.contains(['<', '>', '"', '\'']));
    }
}

#[test]
fn cells_escape_bars_and_backslashes() {
    assert_eq!(markdown_cell("a|b\\c\nd\re"), "a\\|b\\\\c d e");
    for value in VALUES {
        let expected = value
            .replace('\\', "\\\\")
            .replace('|', "\\|")
            .replace('\n', " ")
            .replace('\r', " ");
        assert_eq!(markdown_cell(value), expected);
    }
}
