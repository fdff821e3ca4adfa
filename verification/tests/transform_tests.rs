use sitegen::transform::HeadingLevel;
use sitegen::transform::OutToken;
use sitegen::transform::Token;
use sitegen::transform::transform;

fn html_of(t: &OutToken) -> &str {
    match t {
        OutToken::Html { html } => html,
        _ => panic!("not a markup token"),
    }
}

fn text_of(t: &OutToken) -> &str {
    match t {
        OutToken::Text { text } => text,
        _ => panic!("not a text token"),
    }
}

#[test]
fn heading_gets_anchor_with_slug() {
    let tokens = vec![
        Token::HeadingStart { level: HeadingLevel::H2 },
        Token::Text { text: " Hello World ".to_string() },
    ];
    let out = transform(&tokens);
    assert_eq!(out.len(), 1);
    assert_eq!(
        html_of(&out[0]),
        "<h2 id=\"hello-world\"><a class=\"header\" href=\"#hello-world\"> Hello World </a>"
    );
}

#[test]
fn heading_text_outside_heading_is_untouched() {
    let tokens = vec![Token::Text { text: "plain".to_string() }];
    let out = transform(&tokens);
    assert_eq!(out.len(), 1);
    assert_eq!(text_of(&out[0]), "plain");
}

#[test]
fn definition_with_subtitle_consumes_the_line() {
    let tokens = vec![
        Token::QuoteStart,
        Token::Text { text: "#def: (General form)".to_string() },
    ];
    let out = transform(&tokens);
    assert_eq!(out.len(), 1);
    assert_eq!(
        html_of(&out[0]),
        "<blockquote class=\"def\"><h1>Definition <small>(General form)</small></h1>"
    );
}

#[test]
fn theorem_with_body_text() {
    let tokens = vec![
        Token::QuoteStart,
        Token::Text { text: "#thm: Every bounded sequence...".to_string() },
    ];
    let out = transform(&tokens);
    assert_eq!(out.len(), 2);
    assert_eq!(html_of(&out[0]), "<blockquote class=\"thm\"><h1>Theorem</h1>");
    assert_eq!(text_of(&out[1]), "Every bounded sequence...");
}

#[test]
fn quote_without_colon_stays_generic() {
    let tokens = vec![
        Token::QuoteStart,
        Token::Text { text: "just a quote".to_string() },
    ];
    let out = transform(&tokens);
    assert_eq!(out.len(), 2);
    assert_eq!(html_of(&out[0]), "<blockquote>");
    assert_eq!(text_of(&out[1]), "just a quote");
}

#[test]
fn quote_with_colon_but_no_hash_stays_generic() {
    let tokens = vec![
        Token::QuoteStart,
        Token::Text { text: "note: keep this".to_string() },
    ];
    let out = transform(&tokens);
    assert_eq!(out.len(), 2);
    assert_eq!(html_of(&out[0]), "<blockquote>");
    assert_eq!(text_of(&out[1]), "note: keep this");
}

#[test]
fn unknown_tag_is_lowercased_and_kept() {
    let tokens = vec![
        Token::QuoteStart,
        Token::Text { text: "#Lemma: x".to_string() },
    ];
    let out = transform(&tokens);
    assert_eq!(out.len(), 2);
    assert_eq!(html_of(&out[0]), "<blockquote class=\"lemma\"><h1>lemma</h1>");
    assert_eq!(text_of(&out[1]), "x");
}

#[test]
fn only_first_text_of_a_quote_is_special() {
    let tokens = vec![
        Token::QuoteStart,
        Token::Text { text: "#def: x".to_string() },
        Token::Text { text: "more".to_string() },
        Token::QuoteEnd,
    ];
    let out = transform(&tokens);
    assert_eq!(out.len(), 4);
    assert_eq!(html_of(&out[0]), "<blockquote class=\"def\"><h1>Definition</h1>");
    assert_eq!(text_of(&out[1]), "x");
    assert_eq!(text_of(&out[2]), "more");
    assert!(matches!(out[3], OutToken::QuoteEnd));
}

#[test]
fn raw_tokens_pass_through() {
    let tokens = vec![Token::Raw { id: 7 }, Token::Raw { id: 9 }];
    let out = transform(&tokens);
    assert_eq!(out.len(), 2);
    assert!(matches!(out[0], OutToken::Raw { id: 7 }));
    assert!(matches!(out[1], OutToken::Raw { id: 9 }));
}

#[test]
fn mathematics_is_rendered_to_markup() {
    let tokens = vec![Token::Math { display: false, src: "x".to_string() }];
    let out = transform(&tokens);
    assert_eq!(out.len(), 1);
    let html = html_of(&out[0]);
    assert!(html.contains("<math"));
    assert_ne!(html, "x");
}

#[test]
fn mathematics_failure_leaves_a_visible_marker() {
    let tokens = vec![
        Token::Math { display: true, src: "\\frac{".to_string() },
        Token::Text { text: "after".to_string() },
    ];
    let out = transform(&tokens);
    assert_eq!(out.len(), 2);
    let html = html_of(&out[0]);
    assert!(html.contains("Maths Error"));
    assert!(html.starts_with("<span style=\"color: red\">"));
    assert_eq!(text_of(&out[1]), "after");
}

#[test]
fn empty_stream_stays_empty() {
    assert!(transform(&Vec::new()).is_empty());
}
