//! The single-pass rewrite of one document's token stream.
//!
//! The stream is consumed strictly left to right with two pieces of state
//! and no lookahead: a pending heading level and a flag marking the first
//! text token after a blockquote opens. Three rewrite rules apply, first
//! match wins: mathematics tokens are replaced by rendered markup (or by a
//! visible error marker on failure, which never aborts the document),
//! heading openings become anchored heading elements, and the first text of
//! a blockquote may turn the quote into a styled admonition callout.

use crate::text::chars_to_string;
use crate::text::find_char;
use crate::text::find_char_exec;
use crate::text::lower_of;
use crate::text::replace_all;
use crate::text::replace_all_exec;
use crate::text::str_to_chars;
use crate::text::subvec;
use crate::text::to_lowercase;
use crate::text::trim;
use crate::text::trim_exec;
use crate::text::vec_eq;
use vstd::prelude::*;

verus! {

/// A heading's level, one through six.
#[derive(Clone, Copy, Debug, PartialEq, Eq, Structural)]
pub enum HeadingLevel {
    H1,
    H2,
    H3,
    H4,
    H5,
    H6,
}

/// One token of a document body's event stream, as handed to the
/// transformer. Tokens that the rewrite never touches are carried as `Raw`
/// with an opaque identifier chosen by the caller.
pub enum Token {
    Math { display: bool, src: String },
    HeadingStart { level: HeadingLevel },
    QuoteStart,
    QuoteEnd,
    Text { text: String },
    Raw { id: u64 },
}

/// One token of the rewritten stream.
pub enum OutToken {
    Html { html: String },
    Text { text: String },
    QuoteEnd,
    Raw { id: u64 },
}

/// The ghost shape of a `Token`.
pub enum TokenModel {
    Math { display: bool, src: Seq<char> },
    HeadingStart { level: HeadingLevel },
    QuoteStart,
    QuoteEnd,
    Text { text: Seq<char> },
    Raw { id: u64 },
}

/// The ghost shape of an `OutToken`.
pub enum OutTokenModel {
    Html { html: Seq<char> },
    Text { text: Seq<char> },
    QuoteEnd,
    Raw { id: u64 },
}

impl View for Token {
    type V = TokenModel;

    open spec fn view(&self) -> TokenModel {
        match self {
            Token::Math { display, src } => TokenModel::Math { display: *display, src: src@ },
            Token::HeadingStart { level } => TokenModel::HeadingStart { level: *level },
            Token::QuoteStart => TokenModel::QuoteStart,
            Token::QuoteEnd => TokenModel::QuoteEnd,
            Token::Text { text } => TokenModel::Text { text: text@ },
            Token::Raw { id } => TokenModel::Raw { id: *id },
        }
    }
}

impl DeepView for Token {
    type V = TokenModel;

    open spec fn deep_view(&self) -> TokenModel {
        self.view()
    }
}

impl View for OutToken {
    type V = OutTokenModel;

    open spec fn view(&self) -> OutTokenModel {
        match self {
            OutToken::Html { html } => OutTokenModel::Html { html: html@ },
            OutToken::Text { text } => OutTokenModel::Text { text: text@ },
            OutToken::QuoteEnd => OutTokenModel::QuoteEnd,
            OutToken::Raw { id } => OutTokenModel::Raw { id: *id },
        }
    }
}

impl DeepView for OutToken {
    type V = OutTokenModel;

    open spec fn deep_view(&self) -> OutTokenModel {
        self.view()
    }
}

/// The transformer's whole state: what rule six of the pass remembers of a
/// suppressed heading opening, and whether the next text token is the first
/// inside a freshly opened blockquote.
#[derive(Clone, Copy, Debug)]
pub struct TransformState {
    pub pending_heading: Option<HeadingLevel>,
    pub quote_candidate: bool,
}

/// The state before the first token: no heading pending, no quote open.
pub open spec fn initial_state() -> TransformState {
    TransformState { pending_heading: None, quote_candidate: false }
}

/// What `katex` renders (MathML) for the expression, a function of the
/// expression and the display mode alone; `Err` carries whether the failure
/// came from script execution, and its message.
pub uninterp spec fn katex_mathml(src: Seq<char>, display: bool) -> Result<
    Seq<char>,
    (bool, Seq<char>),
>;

/// Relies on `katex::render_with_opts` with MathML output: the rendered
/// markup, and any failure, depend on the expression and the display mode
/// alone; a script-execution failure is told apart from the other error
/// kinds, whose debug text is taken as the message.
#[verifier::external_body]
fn render_math(src: &String, display: bool) -> (r: Result<String, (bool, String)>)
    ensures
        r is Ok <==> katex_mathml(src@, display) is Ok,
        r matches Ok(m) ==> katex_mathml(src@, display) matches Ok(s) && m@ == s,
        r matches Err(e) ==> katex_mathml(src@, display) matches Err(s) && e.0 == s.0 && e.1@
            == s.1,
{
    let opts = katex::Opts::builder()
        .display_mode(display)
        .output_type(katex::opts::OutputType::Mathml)
        .build()
        .unwrap();
    match katex::render_with_opts(src, &opts) {
        Ok(m) => Ok(m),
        Err(katex::Error::JsExecError(e)) => Err((true, e)),
        Err(e) => Err((false, format!("{:?}", e))),
    }
}

/// A script-execution failure message with the engine's value wrapping
/// removed: every `String("` deleted, one trailing `")` dropped, doubled
/// backslashes collapsed.
pub open spec fn clean_js_error(e: Seq<char>) -> Seq<char> {
    let a = replace_all(e, "String(\""@, Seq::empty());
    let b = if a.len() >= 2 && a.subrange(a.len() - 2, a.len() as int) == "\")"@ {
        a.subrange(0, a.len() - 2)
    } else {
        a
    };
    replace_all(b, "\\\\"@, "\\"@)
}

fn clean_js_error_exec(e: &String) -> (r: String)
    ensures
        r@ == clean_js_error(e@),
{
    proof {
        reveal_strlit("String(\"");
        reveal_strlit("\")");
        reveal_strlit("\\\\");
        reveal_strlit("\\");
    }
    let chars = str_to_chars(e.as_str());
    let pat1 = str_to_chars("String(\"");
    let empty: Vec<char> = Vec::new();
    let a = replace_all_exec(&chars, &pat1, &empty);
    let suffix = str_to_chars("\")");
    let b = if a.len() >= 2 && vec_eq(&subvec(&a, a.len() - 2, a.len()), &suffix) {
        subvec(&a, 0, a.len() - 2)
    } else {
        a
    };
    let pat2 = str_to_chars("\\\\");
    let rep2 = str_to_chars("\\");
    let c = replace_all_exec(&b, &pat2, &rep2);
    chars_to_string(&c)
}

/// The visible in-page marker for a mathematics rendering failure.
pub open spec fn math_error_span(msg: Seq<char>) -> Seq<char> {
    "<span style=\"color: red\">Maths Error: "@ + msg + "</span>"@
}

/// What a mathematics token becomes: the rendered markup on success, the
/// visible error marker on failure.
pub open spec fn math_html(src: Seq<char>, display: bool) -> Seq<char> {
    match katex_mathml(src, display) {
        Ok(m) => m,
        Err(e) => math_error_span(
            if e.0 {
                clean_js_error(e.1)
            } else {
                e.1
            },
        ),
    }
}

/// The tag name of a heading level.
pub open spec fn heading_tag(l: HeadingLevel) -> Seq<char> {
    match l {
        HeadingLevel::H1 => "h1"@,
        HeadingLevel::H2 => "h2"@,
        HeadingLevel::H3 => "h3"@,
        HeadingLevel::H4 => "h4"@,
        HeadingLevel::H5 => "h5"@,
        HeadingLevel::H6 => "h6"@,
    }
}

fn heading_tag_exec(l: HeadingLevel) -> (r: &'static str)
    ensures
        r@ == heading_tag(l),
{
    match l {
        HeadingLevel::H1 => "h1",
        HeadingLevel::H2 => "h2",
        HeadingLevel::H3 => "h3",
        HeadingLevel::H4 => "h4",
        HeadingLevel::H5 => "h5",
        HeadingLevel::H6 => "h6",
    }
}

/// Spaces become hyphens; every other character stays.
pub open spec fn space_to_hyphen(s: Seq<char>) -> Seq<char> {
    s.map_values(
        |c: char|
            if c == ' ' {
                '-'
            } else {
                c
            },
    )
}

/// The anchor slug of a heading: surrounding white space trimmed, the rest
/// lowercased, spaces replaced by hyphens.
pub open spec fn slug_of(text: Seq<char>) -> Seq<char> {
    space_to_hyphen(lower_of(trim(text)))
}

/// The slug of a heading's text, matching `slug_of`.
pub fn slug_exec(text: &String) -> (r: Vec<char>)
    ensures
        r@ == slug_of(text@),
{
    let trimmed = trim_exec(str_to_chars(text.as_str()));
    let lowered = to_lowercase(chars_to_string(&trimmed).as_str());
    let lchars = str_to_chars(lowered.as_str());
    let mut r: Vec<char> = Vec::new();
    let mut i: usize = 0;
    while i < lchars.len()
        invariant
            i <= lchars.len(),
            r@ == space_to_hyphen(lchars@.subrange(0, i as int)),
        decreases lchars.len() - i,
    {
        let c = lchars[i];
        if c == ' ' {
            r.push('-');
        } else {
            r.push(c);
        }
        assert(r@ =~= space_to_hyphen(lchars@.subrange(0, i as int + 1)));
        i = i + 1;
    }
    assert(lchars@.subrange(0, lchars@.len() as int) =~= lchars@);
    r
}

/// The composite markup for an anchored heading: an opening tag of the
/// pending level whose `id` is the slug, holding an anchor link to `#` and
/// the slug, wrapping the original text; the heading is left open.
pub open spec fn heading_html(l: HeadingLevel, text: Seq<char>) -> Seq<char> {
    "<"@ + heading_tag(l) + " id=\""@ + slug_of(text) + "\"><a class=\"header\" href=\"#"@
        + slug_of(text) + "\">"@ + text + "</a>"@
}

fn heading_html_exec(l: HeadingLevel, text: &String) -> (r: String)
    ensures
        r@ == heading_html(l, text@),
{
    let slug = slug_exec(text);
    let mut v: Vec<char> = str_to_chars("<");
    let mut p1 = str_to_chars(heading_tag_exec(l));
    v.append(&mut p1);
    let mut p2 = str_to_chars(" id=\"");
    v.append(&mut p2);
    let mut p3 = subvec(&slug, 0, slug.len());
    v.append(&mut p3);
    let mut p4 = str_to_chars("\"><a class=\"header\" href=\"#");
    v.append(&mut p4);
    let mut p5 = subvec(&slug, 0, slug.len());
    v.append(&mut p5);
    let mut p6 = str_to_chars("\">");
    v.append(&mut p6);
    let mut p7 = str_to_chars(text.as_str());
    v.append(&mut p7);
    let mut p8 = str_to_chars("</a>");
    v.append(&mut p8);
    assert(slug@.subrange(0, slug@.len() as int) =~= slug@);
    assert(v@ =~= heading_html(l, text@));
    chars_to_string(&v)
}

/// The display label of an admonition tag (already lowercased): one of the
/// five known tags gets its word, any other tag stands for itself.
pub open spec fn admonition_label(tag: Seq<char>) -> Seq<char> {
    if tag == "def"@ {
        "Definition"@
    } else if tag == "prop"@ {
        "Proposition"@
    } else if tag == "proof"@ {
        "Proof"@
    } else if tag == "ex"@ {
        "Example"@
    } else if tag == "thm"@ {
        "Theorem"@
    } else {
        tag
    }
}

/// The opening markup of an admonition: a blockquote carrying the lowercase
/// tag as its style class, holding a heading with the resolved label and,
/// when present, the subtitle in smaller type.
pub open spec fn admonition_html(tag: Seq<char>, subtitle: Option<Seq<char>>) -> Seq<char> {
    "<blockquote class=\""@ + tag + "\"><h1>"@ + admonition_label(tag) + (match subtitle {
        Some(sub) => " <small>("@ + sub + ")</small>"@,
        None => Seq::<char>::empty(),
    }) + "</h1>"@
}

fn admonition_label_exec(tag: &Vec<char>) -> (r: Vec<char>)
    ensures
        r@ == admonition_label(tag@),
{
    if vec_eq(tag, &str_to_chars("def")) {
        str_to_chars("Definition")
    } else if vec_eq(tag, &str_to_chars("prop")) {
        str_to_chars("Proposition")
    } else if vec_eq(tag, &str_to_chars("proof")) {
        str_to_chars("Proof")
    } else if vec_eq(tag, &str_to_chars("ex")) {
        str_to_chars("Example")
    } else if vec_eq(tag, &str_to_chars("thm")) {
        str_to_chars("Theorem")
    } else {
        subvec(tag, 0, tag.len())
    }
}

fn admonition_html_exec(tag: &Vec<char>, subtitle: Option<&Vec<char>>) -> (r: String)
    ensures
        r@ == admonition_html(
            tag@,
            match subtitle {
                Some(sub) => Some(sub@),
                None => None,
            },
        ),
{
    let mut v: Vec<char> = str_to_chars("<blockquote class=\"");
    let mut p1 = subvec(tag, 0, tag.len());
    v.append(&mut p1);
    let mut p2 = str_to_chars("\"><h1>");
    v.append(&mut p2);
    let mut p3 = admonition_label_exec(tag);
    v.append(&mut p3);
    match subtitle {
        Some(sub) => {
            let mut q1 = str_to_chars(" <small>(");
            v.append(&mut q1);
            let mut q2 = subvec(sub, 0, sub.len());
            v.append(&mut q2);
            let mut q3 = str_to_chars(")</small>");
            v.append(&mut q3);
            assert(sub@.subrange(0, sub@.len() as int) =~= sub@);
        },
        None => {},
    }
    let mut p4 = str_to_chars("</h1>");
    v.append(&mut p4);
    assert(tag@.subrange(0, tag@.len() as int) =~= tag@);
    assert(v@ =~= admonition_html(
        tag@,
        match subtitle {
            Some(sub) => Some(sub@),
            None => None,
        },
    ));
    chars_to_string(&v)
}

/// What the first text token inside a freshly opened blockquote becomes.
/// The text splits at its first colon; a left side opening with `#` names
/// an admonition whose right side is either a parenthesised subtitle
/// (consuming the whole line) or the start of the body; without a colon, or
/// without the `#`, a generic blockquote wraps the text unchanged.
pub open spec fn quote_text_output(text: Seq<char>) -> Seq<OutTokenModel> {
    match find_char(text, ':') {
        None => seq![
            OutTokenModel::Html { html: "<blockquote>"@ },
            OutTokenModel::Text { text },
        ],
        Some(ci) => {
            let left = text.subrange(0, ci);
            let right = text.subrange(ci + 1, text.len() as int);
            if left.len() > 0 && left[0] == '#' {
                let tag = lower_of(left.subrange(1, left.len() as int));
                let rt = trim(right);
                if rt.len() > 0 && rt[0] == '(' && rt[rt.len() - 1] == ')' {
                    seq![
                        OutTokenModel::Html {
                            html: admonition_html(tag, Some(rt.subrange(1, rt.len() - 1))),
                        },
                    ]
                } else {
                    seq![
                        OutTokenModel::Html { html: admonition_html(tag, None) },
                        OutTokenModel::Text { text: rt },
                    ]
                }
            } else {
                seq![
                    OutTokenModel::Html { html: "<blockquote>"@ },
                    OutTokenModel::Text { text },
                ]
            }
        },
    }
}

/// The state after one token.
pub open spec fn step_state(st: TransformState, t: TokenModel) -> TransformState {
    match t {
        TokenModel::Math { .. } => st,
        TokenModel::HeadingStart { level } => TransformState {
            pending_heading: Some(level),
            quote_candidate: st.quote_candidate,
        },
        TokenModel::QuoteStart => TransformState {
            pending_heading: st.pending_heading,
            quote_candidate: true,
        },
        TokenModel::QuoteEnd => st,
        TokenModel::Text { .. } => if st.quote_candidate {
            TransformState { pending_heading: st.pending_heading, quote_candidate: false }
        } else if st.pending_heading is Some {
            TransformState { pending_heading: None, quote_candidate: st.quote_candidate }
        } else {
            st
        },
        TokenModel::Raw { .. } => st,
    }
}

/// What one token emits, the rules applied in order with the first match
/// winning: mathematics, heading opening, quote opening, quote closing,
/// text inside a fresh quote, text under a pending heading, passthrough.
pub open spec fn step_output(st: TransformState, t: TokenModel) -> Seq<OutTokenModel> {
    match t {
        TokenModel::Math { display, src } => seq![
            OutTokenModel::Html { html: math_html(src, display) },
        ],
        TokenModel::HeadingStart { .. } => Seq::empty(),
        TokenModel::QuoteStart => Seq::empty(),
        TokenModel::QuoteEnd => seq![OutTokenModel::QuoteEnd],
        TokenModel::Text { text } => if st.quote_candidate {
            quote_text_output(text)
        } else {
            match st.pending_heading {
                Some(l) => seq![OutTokenModel::Html { html: heading_html(l, text) }],
                None => seq![OutTokenModel::Text { text }],
            }
        },
        TokenModel::Raw { id } => seq![OutTokenModel::Raw { id }],
    }
}

/// The whole rewritten stream for the tokens `ts` starting in state `st`.
pub open spec fn transform_spec(st: TransformState, ts: Seq<TokenModel>) -> Seq<OutTokenModel>
    decreases ts.len(),
{
    if ts.len() == 0 {
        Seq::empty()
    } else {
        step_output(st, ts[0]) + transform_spec(step_state(st, ts[0]), ts.skip(1))
    }
}

fn transform_token(st: TransformState, t: &Token, out: &mut Vec<OutToken>) -> (st2: TransformState)
    ensures
        st2 == step_state(st, t@),
        final(out).deep_view() == old(out).deep_view() + step_output(st, t@),
{
    let ghost out0 = old(out).deep_view();
    match t {
        Token::Math { display, src } => {
            let html = match render_math(src, *display) {
                Ok(m) => m,
                Err((is_exec, msg)) => {
                    let cleaned = if is_exec {
                        clean_js_error_exec(&msg)
                    } else {
                        msg
                    };
                    let mut v = str_to_chars("<span style=\"color: red\">Maths Error: ");
                    let mut p1 = str_to_chars(cleaned.as_str());
                    v.append(&mut p1);
                    let mut p2 = str_to_chars("</span>");
                    v.append(&mut p2);
                    assert(v@ =~= math_error_span(cleaned@));
                    chars_to_string(&v)
                },
            };
            assert(html@ == math_html(src@, *display));
            out.push(OutToken::Html { html });
            assert(out.deep_view() =~~= out0 + step_output(st, t@));
            st
        },
        Token::HeadingStart { level } => {
            assert(out.deep_view() =~~= out0 + step_output(st, t@));
            TransformState { pending_heading: Some(*level), quote_candidate: st.quote_candidate }
        },
        Token::QuoteStart => {
            assert(out.deep_view() =~~= out0 + step_output(st, t@));
            TransformState { pending_heading: st.pending_heading, quote_candidate: true }
        },
        Token::QuoteEnd => {
            out.push(OutToken::QuoteEnd);
            assert(out.deep_view() =~~= out0 + step_output(st, t@));
            st
        },
        Token::Text { text } => {
            if st.quote_candidate {
                transform_quote_text(text, out);
                assert(out.deep_view() =~~= out0 + step_output(st, t@));
                TransformState { pending_heading: st.pending_heading, quote_candidate: false }
            } else {
                match st.pending_heading {
                    Some(level) => {
                        let html = heading_html_exec(level, text);
                        out.push(OutToken::Html { html });
                        assert(out.deep_view() =~~= out0 + step_output(st, t@));
                        TransformState { pending_heading: None, quote_candidate: false }
                    },
                    None => {
                        out.push(OutToken::Text { text: text.clone() });
                        assert(out.deep_view() =~~= out0 + step_output(st, t@));
                        st
                    },
                }
            }
        },
        Token::Raw { id } => {
            out.push(OutToken::Raw { id: *id });
            assert(out.deep_view() =~~= out0 + step_output(st, t@));
            st
        },
    }
}

fn transform_quote_text(text: &String, out: &mut Vec<OutToken>)
    ensures
        final(out).deep_view() == old(out).deep_view() + quote_text_output(text@),
{
    let ghost out0 = old(out).deep_view();
    let chars = str_to_chars(text.as_str());
    match find_char_exec(&chars, ':') {
        None => {
            out.push(OutToken::Html { html: chars_to_string(&str_to_chars("<blockquote>")) });
            out.push(OutToken::Text { text: text.clone() });
            assert(out.deep_view() =~~= out0 + quote_text_output(text@));
        },
        Some(ci) => {
            proof {
                crate::text::lemma_find_char(chars@, ':');
            }
            let left = subvec(&chars, 0, ci);
            let right = subvec(&chars, ci + 1, chars.len());
            if left.len() > 0 && left[0] == '#' {
                let tag_raw = subvec(&left, 1, left.len());
                let lowered = to_lowercase(chars_to_string(&tag_raw).as_str());
                let tag = str_to_chars(lowered.as_str());
                let rt = trim_exec(right);
                if rt.len() > 0 && rt[0] == '(' && rt[rt.len() - 1] == ')' {
                    let sub = subvec(&rt, 1, rt.len() - 1);
                    let html = admonition_html_exec(&tag, Some(&sub));
                    out.push(OutToken::Html { html });
                    assert(out.deep_view() =~~= out0 + quote_text_output(text@));
                } else {
                    let html = admonition_html_exec(&tag, None);
                    out.push(OutToken::Html { html });
                    out.push(OutToken::Text { text: chars_to_string(&rt) });
                    assert(out.deep_view() =~~= out0 + quote_text_output(text@));
                }
            } else {
                out.push(OutToken::Html { html: chars_to_string(&str_to_chars("<blockquote>")) });
                out.push(OutToken::Text { text: text.clone() });
                assert(out.deep_view() =~~= out0 + quote_text_output(text@));
            }
        },
    }
}

/// Rewrites one document's token stream in a single pass, exactly as
/// `transform_spec` describes from the initial state.
pub fn transform(tokens: &Vec<Token>) -> (out: Vec<OutToken>)
    ensures
        out.deep_view() == transform_spec(initial_state(), tokens.deep_view()),
{
    let mut out: Vec<OutToken> = Vec::new();
    let mut st = TransformState { pending_heading: None, quote_candidate: false };
    let mut i: usize = 0;
    proof {
        assert(st == initial_state());
        assert(tokens.deep_view().skip(0) =~~= tokens.deep_view());
        assert(out.deep_view() + transform_spec(st, tokens.deep_view()) =~~= transform_spec(
            initial_state(),
            tokens.deep_view(),
        ));
    }
    while i < tokens.len()
        invariant
            i <= tokens.len(),
            out.deep_view() + transform_spec(st, tokens.deep_view().skip(i as int))
                == transform_spec(initial_state(), tokens.deep_view()),
        decreases tokens.len() - i,
    {
        let ghost pre = tokens.deep_view().skip(i as int);
        assert(pre[0] == tokens.deep_view()[i as int]);
        let ghost st_before = st;
        st = transform_token(st, &tokens[i], &mut out);
        proof {
            assert(pre.skip(1) =~~= tokens.deep_view().skip(i as int + 1));
            assert(out.deep_view() + transform_spec(st, tokens.deep_view().skip(i as int + 1))
                =~~= transform_spec(initial_state(), tokens.deep_view()));
        }
        i = i + 1;
    }
    proof {
        assert(tokens.deep_view().skip(tokens.deep_view().len() as int)
            =~~= Seq::<TokenModel>::empty());
        assert(out.deep_view() + Seq::<OutTokenModel>::empty() =~~= out.deep_view());
    }
    out
}

/// A heading opening followed at once by a text token, outside a freshly
/// opened blockquote, emits nothing for the opening and then exactly one
/// markup fragment: the anchored heading, whose `id` is the slug of the
/// text and whose anchor points at `#` and that same slug; the pending
/// level is cleared afterwards.
pub proof fn lemma_heading_anchor(st: TransformState, level: HeadingLevel, text: Seq<char>)
    requires
        !st.quote_candidate,
    ensures
        step_output(st, TokenModel::HeadingStart { level }) == Seq::<OutTokenModel>::empty(),
        step_output(step_state(st, TokenModel::HeadingStart { level }), TokenModel::Text { text })
            == seq![OutTokenModel::Html { html: heading_html(level, text) }],
        heading_html(level, text) == "<"@ + heading_tag(level) + " id=\""@ + slug_of(text)
            + "\"><a class=\"header\" href=\"#"@ + slug_of(text) + "\">"@ + text + "</a>"@,
        step_state(
            step_state(st, TokenModel::HeadingStart { level }),
            TokenModel::Text { text },
        ).pending_heading is None,
{
}

/// A mathematics token whose rendering fails emits exactly one fragment,
/// the visible error marker holding the failure message, and leaves the
/// transformer's state unchanged: the failure never aborts the pass.
pub proof fn lemma_math_failure_marker(
    st: TransformState,
    src: Seq<char>,
    display: bool,
    failure: (bool, Seq<char>),
)
    requires
        katex_mathml(src, display) == Err::<Seq<char>, (bool, Seq<char>)>(failure),
    ensures
        step_output(st, TokenModel::Math { display, src }) == seq![
            OutTokenModel::Html {
                html: math_error_span(
                    if failure.0 {
                        clean_js_error(failure.1)
                    } else {
                        failure.1
                    },
                ),
            },
        ],
        step_state(st, TokenModel::Math { display, src }) == st,
{
}

/// Blockquote text without a colon becomes a generic blockquote wrapping
/// the literal original text unchanged.
pub proof fn lemma_plain_blockquote(text: Seq<char>)
    requires
        find_char(text, ':') is None,
    ensures
        quote_text_output(text) == seq![
            OutTokenModel::Html { html: "<blockquote>"@ },
            OutTokenModel::Text { text },
        ],
{
}

} // verus!
