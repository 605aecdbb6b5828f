use marketeer::html::{in_step, strip_html, strip_with, try_strip_html};
use marketeer::markdown::{markdown_blocks, split_cells, Block};
use marketeer::percent::{decode_bytes, percent_decode, percent_encode_qs, try_percent_decode};
use marketeer::search::{find_hits, parse_ddg_results, read_brave_results, try_parse_ddg_results};

#[test]
fn tags_are_taken_out_of_a_page() {
    assert_eq!(strip_html("<p>Hello <b>World</b></p>"), "Hello World");
    assert_eq!(strip_html("a<br>b"), "ab");
    assert_eq!(strip_html(""), "");
    assert_eq!(strip_html("  plain   text \n here "), "plain text here");
}

#[test]
fn scripts_and_styles_are_taken_out_with_their_text() {
    assert_eq!(strip_html("a<script>var x = 1;</script>b"), "ab");
    assert_eq!(strip_html("a<STYLE type=\"x\">p {}</Style>b"), "ab");
    // A sign `<` within a script takes the closing tag with it.
    assert_eq!(strip_html("a<script>if (a <b) {}</script>c"), "a");
    assert_eq!(strip_html("a<scripty>b"), "ab");
}

#[test]
fn entities_are_written_out() {
    assert_eq!(strip_html("a &amp; b &lt;c&gt; &quot;d&quot; &apos;e&apos;"), "a & b <c> \"d\" 'e'");
    assert_eq!(strip_html("a&nbsp;b"), "a b");
    assert_eq!(strip_html("a&mdash;b"), "ab");
    assert_eq!(strip_html("a & b; c"), "a c");
    assert_eq!(strip_html("a & b is far; c"), "a & b is far; c");
    assert_eq!(strip_html("a & b"), "a & b");
}

#[test]
fn a_tag_that_is_not_closed_ends_the_page() {
    assert_eq!(strip_html("text <a href=\"x\""), "text");
    assert_eq!(strip_html("<"), "");
}

#[test]
fn tags_and_scripts_vanish() {
    for p in ["", "one ", "x<b>y</b> &lt; ", "a & b; ", "&123456789", "é"] {
        for q in ["", " two", "&amp;", "<i>z</i>", "tail <open"] {
            let plain = try_strip_html(&format!("{}{}", p, q)).unwrap();
            for part in [
                "<b>",
                "</p class='x'>",
                "<!-- x -->",
                "<script>var a = 1;</script>",
                "<SCRIPT src=x>if (a <b> c) { }</Script>",
                "<style>p { }</style>",
                "<style></script></style>",
            ] {
                assert_eq!(try_strip_html(&format!("{}{}{}", p, part, q)).unwrap(), plain);
            }
            assert!(plain.chars().count() <= p.chars().count() + q.chars().count());
        }
        let alone = try_strip_html(p).unwrap();
        assert_eq!(try_strip_html(&format!("{}<a href='x' rest & more", p)).unwrap(), alone);
    }
    // A `<` in a script hides the tag that would end it.
    assert_eq!(try_strip_html("<script>a < b</script>c").unwrap(), "");
}

#[test]
fn a_stripped_page_stays_as_it_is() {
    for page in ["<p>Hello <b>World</b></p>", "one  two", "<div>x</div> y"] {
        let once = strip_html(page);
        assert_eq!(strip_html(&once), once);
    }
}

#[test]
fn a_page_is_read_with_its_lower_case_copy() {
    assert_eq!(try_strip_html("<P>Grüße</P>").as_deref(), Some("Grüße"));
    assert_eq!(strip_with("<SCRIPT>x</SCRIPT>y", "<script>x</script>y").as_deref(), Some("y"));
    assert!(in_step("ABC", "abc"));
    assert!(in_step("ABCD", "abc"));
    assert!(!in_step("ABCDE", "abc"));
    // The lower-case form of this letter takes one byte more, so that the copy is out of step.
    assert_eq!(try_strip_html("İİİ<b>x</b>"), None);
}

#[test]
fn queries_are_encoded() {
    assert_eq!(percent_encode_qs("rba cash rate"), "rba%20cash%20rate");
    assert_eq!(percent_encode_qs("AZaz09-_.~"), "AZaz09-_.~");
    assert_eq!(percent_encode_qs("a&b=c/d?"), "a%26b%3Dc%2Fd%3F");
    assert_eq!(percent_encode_qs("ü€"), "%C3%BC%E2%82%AC");
    assert_eq!(percent_encode_qs(""), "");
}

#[test]
fn addresses_are_decoded() {
    assert_eq!(percent_decode("https%3A%2F%2Fexample.com%2Fa"), "https://example.com/a");
    assert_eq!(percent_decode("%C3%BC"), "ü");
    assert_eq!(percent_decode("100%"), "100%");
    assert_eq!(percent_decode("%zz1"), "%zz1");
    assert_eq!(percent_decode("%+f1"), "\u{f}1");
    assert_eq!(percent_decode("%41"), "A");
    assert_eq!(percent_decode("%4"), "%4");
}

#[test]
fn texts_are_encoded_one_behind_the_other() {
    for (a, b) in [("a b", "c/d"), ("", "é"), ("%", "41"), ("x", "")] {
        assert_eq!(
            percent_encode_qs(&format!("{}{}", a, b)),
            percent_encode_qs(a) + &percent_encode_qs(b)
        );
    }
}

#[test]
fn decoding_undoes_encoding() {
    for text in ["a b", "ü€ & more", "100%", "https://example.com/?q=1&r=2"] {
        assert_eq!(percent_decode(&percent_encode_qs(text)), text);
    }
}

#[test]
fn bytes_that_are_no_text_are_replaced() {
    assert_eq!(percent_decode("%ff!"), "\u{fffd}!");
    assert_eq!(decode_bytes(b"%41x"), Some(vec![65, 120]));
    // A percent sign before a character that would be cut in two.
    assert_eq!(try_percent_decode("%aü"), None);
    assert_eq!(try_percent_decode("%ü1").as_deref(), Some("%ü1"));
}

fn result(href: &str, title: &str, snippet: &str) -> String {
    format!(
        "<a rel=\"nofollow\" class=\"result__a\" href=\"{}\">{}</a><a class=\"result__snippet\" href=\"x\">{}</a>",
        href, title, snippet
    )
}

#[test]
fn results_of_a_page_are_listed() {
    let page = format!(
        "<html>{}{}</html>",
        result("//duckduckgo.com/l/?uddg=https%3A%2F%2Frba.gov.au%2F&amp;rut=1", "RBA <b>rates</b>", "The <b>cash</b> rate"),
        result("https://example.com/", "Example", "A site"),
    );
    assert_eq!(
        parse_ddg_results(&page),
        "Web search results:\n1. RBA rates — https://rba.gov.au/\n   The cash rate\n2. Example — https://example.com/\n   A site\n"
    );
}

#[test]
fn a_page_without_results_says_so() {
    assert_eq!(
        parse_ddg_results("<html></html>"),
        "Web search results:\n(no results parsed — try web_fetch on a known URL)"
    );
    // Neither a title nor an address may be missing.
    let page = result("", "Title", "x") + &result("https://example.com", "", "y");
    assert_eq!(
        try_parse_ddg_results(&page).as_deref(),
        Some("Web search results:\n(no results parsed — try web_fetch on a known URL)")
    );
}

#[test]
fn no_more_results_are_listed_than_asked_for() {
    let mut page = String::new();
    for i in 0..9 {
        page.push_str(&result("https://example.com/", &format!("T{}", i), "s"));
    }
    assert_eq!(find_hits(&page, 6).unwrap().len(), 6);
    assert_eq!(find_hits(&page, 0).unwrap().len(), 0);
    let hits = find_hits(&page, 2).unwrap();
    assert_eq!(hits[0].title, "T0");
    assert_eq!(hits[1].title, "T1");
    assert_eq!(hits[1].url, "https://example.com/");
    assert_eq!(hits[1].snippet, "s");
}

#[test]
fn a_mark_cut_short_is_not_read() {
    assert_eq!(try_parse_ddg_results("result__a"), None);
    assert_eq!(try_parse_ddg_results("result__aü href=\"x\">t</a>"), None);
}

#[test]
fn an_ascii_page_is_always_taken_apart() {
    for page in [
        "result__a ",
        "result__aresult__a\n",
        "result__a href=\"",
        "result__a href=\"%%%2\"><b>",
        "result__a href=\"?uddg=%%41%zz%\">t</a> result__snippet> <script </a> \0",
        "result__snippet result__",
    ] {
        assert!(try_parse_ddg_results(page).is_some());
        assert!(find_hits(page, 1).is_some());
    }
    assert_eq!(try_parse_ddg_results("abc result__a"), None);
    assert_eq!(
        find_hits("result__a href=\"?uddg=%41%zz\">t</a> ", 1).unwrap()[0].url,
        "A%zz"
    );
}

#[test]
fn text_ahead_of_the_results_has_no_influence() {
    let page = format!("{}{}", result("https://a.b/", "A", "one"), result("https://c.d/", "C", "two"));
    let plain = parse_ddg_results(&page);
    for ahead in ["x", "<html><head>\u{130}", "href=\"no\">no</a>", "result_", "result__snippet"] {
        assert_eq!(parse_ddg_results(&format!("{}{}", ahead, page)), plain);
    }
}

#[test]
fn answers_of_brave_are_listed() {
    let body = "{\"web\":{\"results\":[
        {\"title\":\" One \",\"url\":\"https://a.example\",\"description\":\"first <b>hit</b> \"},
        {\"title\":\"\",\"url\":\"https://b.example\",\"description\":\"x\"},
        {\"title\":\"Three\",\"url\":\"https://c.example\"}]}}";
    assert_eq!(
        read_brave_results(body).unwrap().unwrap(),
        "1. One — https://a.example\n   first hit\n3. Three — https://c.example\n   \n"
    );
    assert_eq!(
        read_brave_results("{}").unwrap().unwrap(),
        "(no results parsed — try web_fetch on a known URL)"
    );
    assert_eq!(
        read_brave_results("nonsense").unwrap().unwrap_err(),
        "expected ident at line 1 column 2"
    );
}

fn prose(b: &Block) -> (usize, String) {
    match b {
        Block::Prose { id, text } => (*id, text.clone()),
        Block::Table { .. } => panic!("a table"),
    }
}

fn table(b: &Block) -> (usize, Vec<Vec<String>>) {
    match b {
        Block::Table { id, rows } => (*id, rows.clone()),
        Block::Prose { .. } => panic!("prose"),
    }
}

#[test]
fn cells_are_split_at_bars() {
    assert_eq!(split_cells("| a | b |"), vec!["a", "b"]);
    assert_eq!(split_cells("a | b"), vec!["a", "b"]);
    assert_eq!(split_cells("| a \\| b | c |"), vec!["a \\| b", "c"]);
    assert_eq!(split_cells("| a || c"), vec!["a", "", "c"]);
    assert_eq!(split_cells(""), vec![""]);
    assert_eq!(split_cells("|"), vec![""]);
}

#[test]
fn an_answer_without_tables_is_prose() {
    let b = markdown_blocks("one\n\ntwo");
    assert_eq!(b.len(), 1);
    assert_eq!(prose(&b[0]), (3, "one\n\ntwo\n".to_string()));
    assert_eq!(markdown_blocks("").len(), 0);
}

#[test]
fn a_table_is_told_from_prose() {
    let b = markdown_blocks("before\n| a | b |\n|---|:-:|\n| 1 | 2 | 3 |\n| 4 |\nafter");
    assert_eq!(b.len(), 3);
    assert_eq!(prose(&b[0]), (1, "before\n".to_string()));
    let (id, rows) = table(&b[1]);
    assert_eq!(id, 1);
    assert_eq!(rows, vec![vec!["a", "b"], vec!["1", "2"], vec!["4", ""]]);
    assert_eq!(prose(&b[2]), (6, "after\n".to_string()));
}

#[test]
fn a_table_in_code_is_prose() {
    let text = "```\n| a | b |\n|---|---|\n```\n";
    let b = markdown_blocks(text);
    assert_eq!(b.len(), 1);
    assert_eq!(prose(&b[0]).1, text);
    let several = "one\n```\n| a |\n|---|\n```\ntwo\n~~~ x | y\n| b |\n|---|\n~~~~\nthree\n";
    let d = markdown_blocks(several);
    assert_eq!(d.len(), 1);
    assert_eq!(prose(&d[0]), (11, several.to_string()));
    // A shorter fence does not close a longer one.
    let nested = "````\n```\n| a |\n|---|\n````\n| a |\n|---|\n";
    let c = markdown_blocks(nested);
    assert_eq!(c.len(), 2);
    assert_eq!(table(&c[1]).1, vec![vec!["a"]]);
}

#[test]
fn a_rule_of_another_width_makes_no_table() {
    let b = markdown_blocks("| a | b |\n|---|\n");
    assert_eq!(b.len(), 1);
    assert_eq!(prose(&b[0]).1, "| a | b |\n|---|\n");
}
