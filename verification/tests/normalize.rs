use feedwatch::normalize::{decode_entities, filter_lines, normalize};

#[test]
fn entities_are_unescaped_once() {
    assert_eq!(decode_entities("&lt;p&gt;x&lt;/p&gt;"), "<p>x</p>");
    assert_eq!(decode_entities("&quot;a&quot; &apos;b&apos;"), "\"a\" 'b'");
    assert_eq!(decode_entities("Tom &amp; Jerry"), "Tom & Jerry");
    assert_eq!(decode_entities("plain"), "plain");
    assert_eq!(decode_entities(""), "");
}

#[test]
fn ampersand_is_unescaped_last() {
    assert_eq!(decode_entities("&amp;amp;"), "&amp;");
    assert_eq!(decode_entities("&amp;lt;"), "&lt;");
    assert_eq!(decode_entities("&lt;a href=&quot;u?a=1&amp;amp;b=2&quot;&gt;"), "<a href=\"u?a=1&amp;b=2\">");
}

#[test]
fn noise_lines_are_dropped() {
    assert_eq!(
        filter_lines("zero\n|\nMath\nThis Message SUPPORTS rich text\n| |\nend"),
        vec!["zero", "Math", "| |", "end"]
    );
    assert_eq!(filter_lines("|"), Vec::<String>::new());
    assert_eq!(filter_lines("||\n |"), vec!["||", " |"]);
    assert_eq!(filter_lines(""), Vec::<String>::new());
}

#[test]
fn kept_lines_stay_in_order() {
    assert_eq!(filter_lines("b\r\na\n\nc\n"), vec!["b", "a", "", "c"]);
}

#[test]
fn html_is_rendered_as_lines() {
    let lines = normalize("<p>zero</p><p>Math</p><p>Details <b>here</b></p><p><a href=\"https://x.example/z\">Open</a></p>");
    assert_eq!(lines, vec!["zero", "Math", "Details **here**", "[Open](https://x.example/z)"]);
}

#[test]
fn rendering_filters_the_footer() {
    let lines = normalize("<p>zero</p><p>This message supports rich content</p><p>Math</p>");
    assert_eq!(lines, vec!["zero", "Math"]);
}
