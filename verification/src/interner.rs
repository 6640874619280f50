//! String interning: each distinct name gets a small symbol, the same
//! name always the same symbol, with the common HTML and CSS names seeded
//! at fixed symbols.

use vstd::prelude::*;

use crate::text::{lower, owned, str_eq, to_ascii_lowercase};

verus! {

// ─── Symbol ──────────────────────────────────────────────────────

/// A 32-bit handle to an interned string. Symbols are cheap to copy and
/// compare; they are only meaningful within the interner that made them.
#[derive(Debug, Clone, Copy, PartialEq, Eq, Hash, PartialOrd, Ord, Structural)]
pub struct Symbol(pub u32);

// ─── Pre-seeded symbols ──────────────────────────────────────────
//
// `Interner::new` interns these names first, in this order, so the common
// HTML tags, attribute names and CSS properties have fixed symbols.

pub const SYM_HTML: u32 = 0;
pub const SYM_HEAD: u32 = 1;
pub const SYM_BODY: u32 = 2;
pub const SYM_DIV: u32 = 3;
pub const SYM_P: u32 = 4;
pub const SYM_SPAN: u32 = 5;
pub const SYM_A: u32 = 6;
pub const SYM_H1: u32 = 7;
pub const SYM_H2: u32 = 8;
pub const SYM_H3: u32 = 9;
pub const SYM_H4: u32 = 10;
pub const SYM_H5: u32 = 11;
pub const SYM_H6: u32 = 12;
pub const SYM_UL: u32 = 13;
pub const SYM_OL: u32 = 14;
pub const SYM_LI: u32 = 15;
pub const SYM_TABLE: u32 = 16;
pub const SYM_TR: u32 = 17;
pub const SYM_TD: u32 = 18;
pub const SYM_TH: u32 = 19;
pub const SYM_IMG: u32 = 20;
pub const SYM_BR: u32 = 21;
pub const SYM_HR: u32 = 22;
pub const SYM_STYLE: u32 = 23;
pub const SYM_LINK: u32 = 24;
pub const SYM_SCRIPT: u32 = 25;
pub const SYM_TITLE: u32 = 26;
pub const SYM_META: u32 = 27;
pub const SYM_INPUT: u32 = 28;
pub const SYM_FORM: u32 = 29;
pub const SYM_BUTTON: u32 = 30;
pub const SYM_STRONG: u32 = 31;
pub const SYM_EM: u32 = 32;
pub const SYM_SECTION: u32 = 33;
pub const SYM_ARTICLE: u32 = 34;
pub const SYM_NAV: u32 = 35;
pub const SYM_HEADER: u32 = 36;
pub const SYM_FOOTER: u32 = 37;
pub const SYM_MAIN: u32 = 38;
pub const SYM_CLASS: u32 = 39;
pub const SYM_ID: u32 = 40;
pub const SYM_HREF: u32 = 41;
pub const SYM_SRC: u32 = 42;
pub const SYM_REL: u32 = 43;
pub const SYM_TYPE: u32 = 44;
pub const SYM_ALT: u32 = 45;
pub const SYM_COLOR: u32 = 46;
pub const SYM_BACKGROUND_COLOR: u32 = 47;
pub const SYM_DISPLAY: u32 = 48;
pub const SYM_WIDTH: u32 = 49;
pub const SYM_HEIGHT: u32 = 50;
pub const SYM_MARGIN: u32 = 51;
pub const SYM_MARGIN_TOP: u32 = 52;
pub const SYM_MARGIN_RIGHT: u32 = 53;
pub const SYM_MARGIN_BOTTOM: u32 = 54;
pub const SYM_MARGIN_LEFT: u32 = 55;
pub const SYM_PADDING: u32 = 56;
pub const SYM_PADDING_TOP: u32 = 57;
pub const SYM_PADDING_RIGHT: u32 = 58;
pub const SYM_PADDING_BOTTOM: u32 = 59;
pub const SYM_PADDING_LEFT: u32 = 60;
pub const SYM_FONT_SIZE: u32 = 61;
pub const SYM_FONT_WEIGHT: u32 = 62;
pub const SYM_TEXT_ALIGN: u32 = 63;
pub const SYM_LINE_HEIGHT: u32 = 64;
pub const SYM_BORDER_WIDTH: u32 = 65;
pub const SYM_POSITION: u32 = 66;

/// The pre-seeded names, in symbol order.
pub open spec fn spec_pre_seeded() -> Seq<Seq<char>> {
    seq![
        "html"@,
        "head"@,
        "body"@,
        "div"@,
        "p"@,
        "span"@,
        "a"@,
        "h1"@,
        "h2"@,
        "h3"@,
        "h4"@,
        "h5"@,
        "h6"@,
        "ul"@,
        "ol"@,
        "li"@,
        "table"@,
        "tr"@,
        "td"@,
        "th"@,
        "img"@,
        "br"@,
        "hr"@,
        "style"@,
        "link"@,
        "script"@,
        "title"@,
        "meta"@,
        "input"@,
        "form"@,
        "button"@,
        "strong"@,
        "em"@,
        "section"@,
        "article"@,
        "nav"@,
        "header"@,
        "footer"@,
        "main"@,
        "class"@,
        "id"@,
        "href"@,
        "src"@,
        "rel"@,
        "type"@,
        "alt"@,
        "color"@,
        "background-color"@,
        "display"@,
        "width"@,
        "height"@,
        "margin"@,
        "margin-top"@,
        "margin-right"@,
        "margin-bottom"@,
        "margin-left"@,
        "padding"@,
        "padding-top"@,
        "padding-right"@,
        "padding-bottom"@,
        "padding-left"@,
        "font-size"@,
        "font-weight"@,
        "text-align"@,
        "line-height"@,
        "border-width"@,
        "position"@
    ]
}

/// The number of pre-seeded names.
pub const PRE_SEEDED_LEN: usize = 67;

/// The pre-seeded names, in symbol order.
pub fn pre_seeded_names() -> (res: Vec<&'static str>)
    ensures
        res@.len() == spec_pre_seeded().len(),
        forall|i: int| 0 <= i < res@.len() ==> #[trigger] res@[i]@ == spec_pre_seeded()[i],
{
    let mut v: Vec<&'static str> = Vec::new();
    v.push("html");
    v.push("head");
    v.push("body");
    v.push("div");
    v.push("p");
    v.push("span");
    v.push("a");
    v.push("h1");
    v.push("h2");
    v.push("h3");
    v.push("h4");
    v.push("h5");
    v.push("h6");
    v.push("ul");
    v.push("ol");
    v.push("li");
    v.push("table");
    v.push("tr");
    v.push("td");
    v.push("th");
    v.push("img");
    v.push("br");
    v.push("hr");
    v.push("style");
    v.push("link");
    v.push("script");
    v.push("title");
    v.push("meta");
    v.push("input");
    v.push("form");
    v.push("button");
    v.push("strong");
    v.push("em");
    v.push("section");
    v.push("article");
    v.push("nav");
    v.push("header");
    v.push("footer");
    v.push("main");
    v.push("class");
    v.push("id");
    v.push("href");
    v.push("src");
    v.push("rel");
    v.push("type");
    v.push("alt");
    v.push("color");
    v.push("background-color");
    v.push("display");
    v.push("width");
    v.push("height");
    v.push("margin");
    v.push("margin-top");
    v.push("margin-right");
    v.push("margin-bottom");
    v.push("margin-left");
    v.push("padding");
    v.push("padding-top");
    v.push("padding-right");
    v.push("padding-bottom");
    v.push("padding-left");
    v.push("font-size");
    v.push("font-weight");
    v.push("text-align");
    v.push("line-height");
    v.push("border-width");
    v.push("position");
    assert(v@.len() == 67);
    v
}

/// The pre-seeded names are pairwise distinct.
#[verifier::rlimit(50)]
fn lemma_pre_seeded_distinct()
    ensures
        distinct(spec_pre_seeded()),
{
    proof {
        reveal_strlit("html");
        reveal_strlit("head");
        reveal_strlit("body");
        reveal_strlit("div");
        reveal_strlit("p");
        reveal_strlit("span");
        reveal_strlit("a");
        reveal_strlit("h1");
        reveal_strlit("h2");
        reveal_strlit("h3");
        reveal_strlit("h4");
        reveal_strlit("h5");
        reveal_strlit("h6");
        reveal_strlit("ul");
        reveal_strlit("ol");
        reveal_strlit("li");
        reveal_strlit("table");
        reveal_strlit("tr");
        reveal_strlit("td");
        reveal_strlit("th");
        reveal_strlit("img");
        reveal_strlit("br");
        reveal_strlit("hr");
        reveal_strlit("style");
        reveal_strlit("link");
        reveal_strlit("script");
        reveal_strlit("title");
        reveal_strlit("meta");
        reveal_strlit("input");
        reveal_strlit("form");
        reveal_strlit("button");
        reveal_strlit("strong");
        reveal_strlit("em");
        reveal_strlit("section");
        reveal_strlit("article");
        reveal_strlit("nav");
        reveal_strlit("header");
        reveal_strlit("footer");
        reveal_strlit("main");
        reveal_strlit("class");
        reveal_strlit("id");
        reveal_strlit("href");
        reveal_strlit("src");
        reveal_strlit("rel");
        reveal_strlit("type");
        reveal_strlit("alt");
        reveal_strlit("color");
        reveal_strlit("background-color");
        reveal_strlit("display");
        reveal_strlit("width");
        reveal_strlit("height");
        reveal_strlit("margin");
        reveal_strlit("margin-top");
        reveal_strlit("margin-right");
        reveal_strlit("margin-bottom");
        reveal_strlit("margin-left");
        reveal_strlit("padding");
        reveal_strlit("padding-top");
        reveal_strlit("padding-right");
        reveal_strlit("padding-bottom");
        reveal_strlit("padding-left");
        reveal_strlit("font-size");
        reveal_strlit("font-weight");
        reveal_strlit("text-align");
        reveal_strlit("line-height");
        reveal_strlit("border-width");
        reveal_strlit("position");
    }
    let ghost v = spec_pre_seeded();
    assert(v[0] == "html"@ && v[0].len() == 4);
    assert(v[1] == "head"@ && v[1].len() == 4);
    assert(v[2] == "body"@ && v[2].len() == 4);
    assert(v[3] == "div"@ && v[3].len() == 3);
    assert(v[4] == "p"@ && v[4].len() == 1);
    assert(v[5] == "span"@ && v[5].len() == 4);
    assert(v[6] == "a"@ && v[6].len() == 1);
    assert(v[7] == "h1"@ && v[7].len() == 2);
    assert(v[8] == "h2"@ && v[8].len() == 2);
    assert(v[9] == "h3"@ && v[9].len() == 2);
    assert(v[10] == "h4"@ && v[10].len() == 2);
    assert(v[11] == "h5"@ && v[11].len() == 2);
    assert(v[12] == "h6"@ && v[12].len() == 2);
    assert(v[13] == "ul"@ && v[13].len() == 2);
    assert(v[14] == "ol"@ && v[14].len() == 2);
    assert(v[15] == "li"@ && v[15].len() == 2);
    assert(v[16] == "table"@ && v[16].len() == 5);
    assert(v[17] == "tr"@ && v[17].len() == 2);
    assert(v[18] == "td"@ && v[18].len() == 2);
    assert(v[19] == "th"@ && v[19].len() == 2);
    assert(v[20] == "img"@ && v[20].len() == 3);
    assert(v[21] == "br"@ && v[21].len() == 2);
    assert(v[22] == "hr"@ && v[22].len() == 2);
    assert(v[23] == "style"@ && v[23].len() == 5);
    assert(v[24] == "link"@ && v[24].len() == 4);
    assert(v[25] == "script"@ && v[25].len() == 6);
    assert(v[26] == "title"@ && v[26].len() == 5);
    assert(v[27] == "meta"@ && v[27].len() == 4);
    assert(v[28] == "input"@ && v[28].len() == 5);
    assert(v[29] == "form"@ && v[29].len() == 4);
    assert(v[30] == "button"@ && v[30].len() == 6);
    assert(v[31] == "strong"@ && v[31].len() == 6);
    assert(v[32] == "em"@ && v[32].len() == 2);
    assert(v[33] == "section"@ && v[33].len() == 7);
    assert(v[34] == "article"@ && v[34].len() == 7);
    assert(v[35] == "nav"@ && v[35].len() == 3);
    assert(v[36] == "header"@ && v[36].len() == 6);
    assert(v[37] == "footer"@ && v[37].len() == 6);
    assert(v[38] == "main"@ && v[38].len() == 4);
    assert(v[39] == "class"@ && v[39].len() == 5);
    assert(v[40] == "id"@ && v[40].len() == 2);
    assert(v[41] == "href"@ && v[41].len() == 4);
    assert(v[42] == "src"@ && v[42].len() == 3);
    assert(v[43] == "rel"@ && v[43].len() == 3);
    assert(v[44] == "type"@ && v[44].len() == 4);
    assert(v[45] == "alt"@ && v[45].len() == 3);
    assert(v[46] == "color"@ && v[46].len() == 5);
    assert(v[47] == "background-color"@ && v[47].len() == 16);
    assert(v[48] == "display"@ && v[48].len() == 7);
    assert(v[49] == "width"@ && v[49].len() == 5);
    assert(v[50] == "height"@ && v[50].len() == 6);
    assert(v[51] == "margin"@ && v[51].len() == 6);
    assert(v[52] == "margin-top"@ && v[52].len() == 10);
    assert(v[53] == "margin-right"@ && v[53].len() == 12);
    assert(v[54] == "margin-bottom"@ && v[54].len() == 13);
    assert(v[55] == "margin-left"@ && v[55].len() == 11);
    assert(v[56] == "padding"@ && v[56].len() == 7);
    assert(v[57] == "padding-top"@ && v[57].len() == 11);
    assert(v[58] == "padding-right"@ && v[58].len() == 13);
    assert(v[59] == "padding-bottom"@ && v[59].len() == 14);
    assert(v[60] == "padding-left"@ && v[60].len() == 12);
    assert(v[61] == "font-size"@ && v[61].len() == 9);
    assert(v[62] == "font-weight"@ && v[62].len() == 11);
    assert(v[63] == "text-align"@ && v[63].len() == 10);
    assert(v[64] == "line-height"@ && v[64].len() == 11);
    assert(v[65] == "border-width"@ && v[65].len() == 12);
    assert(v[66] == "position"@ && v[66].len() == 8);
    assert(v[0][1] == 't' && v[1][1] == 'e');
    assert(v[0][0] == 'h' && v[2][0] == 'b');
    assert(v[1][0] == 'h' && v[2][0] == 'b');
    assert(v[0][0] == 'h' && v[5][0] == 's');
    assert(v[1][0] == 'h' && v[5][0] == 's');
    assert(v[2][0] == 'b' && v[5][0] == 's');
    assert(v[4][0] == 'p' && v[6][0] == 'a');
    assert(v[7][1] == '1' && v[8][1] == '2');
    assert(v[7][1] == '1' && v[9][1] == '3');
    assert(v[8][1] == '2' && v[9][1] == '3');
    assert(v[7][1] == '1' && v[10][1] == '4');
    assert(v[8][1] == '2' && v[10][1] == '4');
    assert(v[9][1] == '3' && v[10][1] == '4');
    assert(v[7][1] == '1' && v[11][1] == '5');
    assert(v[8][1] == '2' && v[11][1] == '5');
    assert(v[9][1] == '3' && v[11][1] == '5');
    assert(v[10][1] == '4' && v[11][1] == '5');
    assert(v[7][1] == '1' && v[12][1] == '6');
    assert(v[8][1] == '2' && v[12][1] == '6');
    assert(v[9][1] == '3' && v[12][1] == '6');
    assert(v[10][1] == '4' && v[12][1] == '6');
    assert(v[11][1] == '5' && v[12][1] == '6');
    assert(v[7][0] == 'h' && v[13][0] == 'u');
    assert(v[8][0] == 'h' && v[13][0] == 'u');
    assert(v[9][0] == 'h' && v[13][0] == 'u');
    assert(v[10][0] == 'h' && v[13][0] == 'u');
    assert(v[11][0] == 'h' && v[13][0] == 'u');
    assert(v[12][0] == 'h' && v[13][0] == 'u');
    assert(v[7][0] == 'h' && v[14][0] == 'o');
    assert(v[8][0] == 'h' && v[14][0] == 'o');
    assert(v[9][0] == 'h' && v[14][0] == 'o');
    assert(v[10][0] == 'h' && v[14][0] == 'o');
    assert(v[11][0] == 'h' && v[14][0] == 'o');
    assert(v[12][0] == 'h' && v[14][0] == 'o');
    assert(v[13][0] == 'u' && v[14][0] == 'o');
    assert(v[7][0] == 'h' && v[15][0] == 'l');
    assert(v[8][0] == 'h' && v[15][0] == 'l');
    assert(v[9][0] == 'h' && v[15][0] == 'l');
    assert(v[10][0] == 'h' && v[15][0] == 'l');
    assert(v[11][0] == 'h' && v[15][0] == 'l');
    assert(v[12][0] == 'h' && v[15][0] == 'l');
    assert(v[13][0] == 'u' && v[15][0] == 'l');
    assert(v[14][0] == 'o' && v[15][0] == 'l');
    assert(v[7][0] == 'h' && v[17][0] == 't');
    assert(v[8][0] == 'h' && v[17][0] == 't');
    assert(v[9][0] == 'h' && v[17][0] == 't');
    assert(v[10][0] == 'h' && v[17][0] == 't');
    assert(v[11][0] == 'h' && v[17][0] == 't');
    assert(v[12][0] == 'h' && v[17][0] == 't');
    assert(v[13][0] == 'u' && v[17][0] == 't');
    assert(v[14][0] == 'o' && v[17][0] == 't');
    assert(v[15][0] == 'l' && v[17][0] == 't');
    assert(v[7][0] == 'h' && v[18][0] == 't');
    assert(v[8][0] == 'h' && v[18][0] == 't');
    assert(v[9][0] == 'h' && v[18][0] == 't');
    assert(v[10][0] == 'h' && v[18][0] == 't');
    assert(v[11][0] == 'h' && v[18][0] == 't');
    assert(v[12][0] == 'h' && v[18][0] == 't');
    assert(v[13][0] == 'u' && v[18][0] == 't');
    assert(v[14][0] == 'o' && v[18][0] == 't');
    assert(v[15][0] == 'l' && v[18][0] == 't');
    assert(v[17][1] == 'r' && v[18][1] == 'd');
    assert(v[7][0] == 'h' && v[19][0] == 't');
    assert(v[8][0] == 'h' && v[19][0] == 't');
    assert(v[9][0] == 'h' && v[19][0] == 't');
    assert(v[10][0] == 'h' && v[19][0] == 't');
    assert(v[11][0] == 'h' && v[19][0] == 't');
    assert(v[12][0] == 'h' && v[19][0] == 't');
    assert(v[13][0] == 'u' && v[19][0] == 't');
    assert(v[14][0] == 'o' && v[19][0] == 't');
    assert(v[15][0] == 'l' && v[19][0] == 't');
    assert(v[17][1] == 'r' && v[19][1] == 'h');
    assert(v[18][1] == 'd' && v[19][1] == 'h');
    assert(v[3][0] == 'd' && v[20][0] == 'i');
    assert(v[7][0] == 'h' && v[21][0] == 'b');
    assert(v[8][0] == 'h' && v[21][0] == 'b');
    assert(v[9][0] == 'h' && v[21][0] == 'b');
    assert(v[10][0] == 'h' && v[21][0] == 'b');
    assert(v[11][0] == 'h' && v[21][0] == 'b');
    assert(v[12][0] == 'h' && v[21][0] == 'b');
    assert(v[13][0] == 'u' && v[21][0] == 'b');
    assert(v[14][0] == 'o' && v[21][0] == 'b');
    assert(v[15][0] == 'l' && v[21][0] == 'b');
    assert(v[17][0] == 't' && v[21][0] == 'b');
    assert(v[18][0] == 't' && v[21][0] == 'b');
    assert(v[19][0] == 't' && v[21][0] == 'b');
    assert(v[7][1] == '1' && v[22][1] == 'r');
    assert(v[8][1] == '2' && v[22][1] == 'r');
    assert(v[9][1] == '3' && v[22][1] == 'r');
    assert(v[10][1] == '4' && v[22][1] == 'r');
    assert(v[11][1] == '5' && v[22][1] == 'r');
    assert(v[12][1] == '6' && v[22][1] == 'r');
    assert(v[13][0] == 'u' && v[22][0] == 'h');
    assert(v[14][0] == 'o' && v[22][0] == 'h');
    assert(v[15][0] == 'l' && v[22][0] == 'h');
    assert(v[17][0] == 't' && v[22][0] == 'h');
    assert(v[18][0] == 't' && v[22][0] == 'h');
    assert(v[19][0] == 't' && v[22][0] == 'h');
    assert(v[21][0] == 'b' && v[22][0] == 'h');
    assert(v[16][0] == 't' && v[23][0] == 's');
    assert(v[0][0] == 'h' && v[24][0] == 'l');
    assert(v[1][0] == 'h' && v[24][0] == 'l');
    assert(v[2][0] == 'b' && v[24][0] == 'l');
    assert(v[5][0] == 's' && v[24][0] == 'l');
    assert(v[16][1] == 'a' && v[26][1] == 'i');
    assert(v[23][0] == 's' && v[26][0] == 't');
    assert(v[0][0] == 'h' && v[27][0] == 'm');
    assert(v[1][0] == 'h' && v[27][0] == 'm');
    assert(v[2][0] == 'b' && v[27][0] == 'm');
    assert(v[5][0] == 's' && v[27][0] == 'm');
    assert(v[24][0] == 'l' && v[27][0] == 'm');
    assert(v[16][0] == 't' && v[28][0] == 'i');
    assert(v[23][0] == 's' && v[28][0] == 'i');
    assert(v[26][0] == 't' && v[28][0] == 'i');
    assert(v[0][0] == 'h' && v[29][0] == 'f');
    assert(v[1][0] == 'h' && v[29][0] == 'f');
    assert(v[2][0] == 'b' && v[29][0] == 'f');
    assert(v[5][0] == 's' && v[29][0] == 'f');
    assert(v[24][0] == 'l' && v[29][0] == 'f');
    assert(v[27][0] == 'm' && v[29][0] == 'f');
    assert(v[25][0] == 's' && v[30][0] == 'b');
    assert(v[25][1] == 'c' && v[31][1] == 't');
    assert(v[30][0] == 'b' && v[31][0] == 's');
    assert(v[7][0] == 'h' && v[32][0] == 'e');
    assert(v[8][0] == 'h' && v[32][0] == 'e');
    assert(v[9][0] == 'h' && v[32][0] == 'e');
    assert(v[10][0] == 'h' && v[32][0] == 'e');
    assert(v[11][0] == 'h' && v[32][0] == 'e');
    assert(v[12][0] == 'h' && v[32][0] == 'e');
    assert(v[13][0] == 'u' && v[32][0] == 'e');
    assert(v[14][0] == 'o' && v[32][0] == 'e');
    assert(v[15][0] == 'l' && v[32][0] == 'e');
    assert(v[17][0] == 't' && v[32][0] == 'e');
    assert(v[18][0] == 't' && v[32][0] == 'e');
    assert(v[19][0] == 't' && v[32][0] == 'e');
    assert(v[21][0] == 'b' && v[32][0] == 'e');
    assert(v[22][0] == 'h' && v[32][0] == 'e');
    assert(v[33][0] == 's' && v[34][0] == 'a');
    assert(v[3][0] == 'd' && v[35][0] == 'n');
    assert(v[20][0] == 'i' && v[35][0] == 'n');
    assert(v[25][0] == 's' && v[36][0] == 'h');
    assert(v[30][0] == 'b' && v[36][0] == 'h');
    assert(v[31][0] == 's' && v[36][0] == 'h');
    assert(v[25][0] == 's' && v[37][0] == 'f');
    assert(v[30][0] == 'b' && v[37][0] == 'f');
    assert(v[31][0] == 's' && v[37][0] == 'f');
    assert(v[36][0] == 'h' && v[37][0] == 'f');
    assert(v[0][0] == 'h' && v[38][0] == 'm');
    assert(v[1][0] == 'h' && v[38][0] == 'm');
    assert(v[2][0] == 'b' && v[38][0] == 'm');
    assert(v[5][0] == 's' && v[38][0] == 'm');
    assert(v[24][0] == 'l' && v[38][0] == 'm');
    assert(v[27][1] == 'e' && v[38][1] == 'a');
    assert(v[29][0] == 'f' && v[38][0] == 'm');
    assert(v[16][0] == 't' && v[39][0] == 'c');
    assert(v[23][0] == 's' && v[39][0] == 'c');
    assert(v[26][0] == 't' && v[39][0] == 'c');
    assert(v[28][0] == 'i' && v[39][0] == 'c');
    assert(v[7][0] == 'h' && v[40][0] == 'i');
    assert(v[8][0] == 'h' && v[40][0] == 'i');
    assert(v[9][0] == 'h' && v[40][0] == 'i');
    assert(v[10][0] == 'h' && v[40][0] == 'i');
    assert(v[11][0] == 'h' && v[40][0] == 'i');
    assert(v[12][0] == 'h' && v[40][0] == 'i');
    assert(v[13][0] == 'u' && v[40][0] == 'i');
    assert(v[14][0] == 'o' && v[40][0] == 'i');
    assert(v[15][0] == 'l' && v[40][0] == 'i');
    assert(v[17][0] == 't' && v[40][0] == 'i');
    assert(v[18][0] == 't' && v[40][0] == 'i');
    assert(v[19][0] == 't' && v[40][0] == 'i');
    assert(v[21][0] == 'b' && v[40][0] == 'i');
    assert(v[22][0] == 'h' && v[40][0] == 'i');
    assert(v[32][0] == 'e' && v[40][0] == 'i');
    assert(v[0][1] == 't' && v[41][1] == 'r');
    assert(v[1][1] == 'e' && v[41][1] == 'r');
    assert(v[2][0] == 'b' && v[41][0] == 'h');
    assert(v[5][0] == 's' && v[41][0] == 'h');
    assert(v[24][0] == 'l' && v[41][0] == 'h');
    assert(v[27][0] == 'm' && v[41][0] == 'h');
    assert(v[29][0] == 'f' && v[41][0] == 'h');
    assert(v[38][0] == 'm' && v[41][0] == 'h');
    assert(v[3][0] == 'd' && v[42][0] == 's');
    assert(v[20][0] == 'i' && v[42][0] == 's');
    assert(v[35][0] == 'n' && v[42][0] == 's');
    assert(v[3][0] == 'd' && v[43][0] == 'r');
    assert(v[20][0] == 'i' && v[43][0] == 'r');
    assert(v[35][0] == 'n' && v[43][0] == 'r');
    assert(v[42][0] == 's' && v[43][0] == 'r');
    assert(v[0][0] == 'h' && v[44][0] == 't');
    assert(v[1][0] == 'h' && v[44][0] == 't');
    assert(v[2][0] == 'b' && v[44][0] == 't');
    assert(v[5][0] == 's' && v[44][0] == 't');
    assert(v[24][0] == 'l' && v[44][0] == 't');
    assert(v[27][0] == 'm' && v[44][0] == 't');
    assert(v[29][0] == 'f' && v[44][0] == 't');
    assert(v[38][0] == 'm' && v[44][0] == 't');
    assert(v[41][0] == 'h' && v[44][0] == 't');
    assert(v[3][0] == 'd' && v[45][0] == 'a');
    assert(v[20][0] == 'i' && v[45][0] == 'a');
    assert(v[35][0] == 'n' && v[45][0] == 'a');
    assert(v[42][0] == 's' && v[45][0] == 'a');
    assert(v[43][0] == 'r' && v[45][0] == 'a');
    assert(v[16][0] == 't' && v[46][0] == 'c');
    assert(v[23][0] == 's' && v[46][0] == 'c');
    assert(v[26][0] == 't' && v[46][0] == 'c');
    assert(v[28][0] == 'i' && v[46][0] == 'c');
    assert(v[39][1] == 'l' && v[46][1] == 'o');
    assert(v[33][0] == 's' && v[48][0] == 'd');
    assert(v[34][0] == 'a' && v[48][0] == 'd');
    assert(v[16][0] == 't' && v[49][0] == 'w');
    assert(v[23][0] == 's' && v[49][0] == 'w');
    assert(v[26][0] == 't' && v[49][0] == 'w');
    assert(v[28][0] == 'i' && v[49][0] == 'w');
    assert(v[39][0] == 'c' && v[49][0] == 'w');
    assert(v[46][0] == 'c' && v[49][0] == 'w');
    assert(v[25][0] == 's' && v[50][0] == 'h');
    assert(v[30][0] == 'b' && v[50][0] == 'h');
    assert(v[31][0] == 's' && v[50][0] == 'h');
    assert(v[36][2] == 'a' && v[50][2] == 'i');
    assert(v[37][0] == 'f' && v[50][0] == 'h');
    assert(v[25][0] == 's' && v[51][0] == 'm');
    assert(v[30][0] == 'b' && v[51][0] == 'm');
    assert(v[31][0] == 's' && v[51][0] == 'm');
    assert(v[36][0] == 'h' && v[51][0] == 'm');
    assert(v[37][0] == 'f' && v[51][0] == 'm');
    assert(v[50][0] == 'h' && v[51][0] == 'm');
    assert(v[33][0] == 's' && v[56][0] == 'p');
    assert(v[34][0] == 'a' && v[56][0] == 'p');
    assert(v[48][0] == 'd' && v[56][0] == 'p');
    assert(v[55][0] == 'm' && v[57][0] == 'p');
    assert(v[54][0] == 'm' && v[58][0] == 'p');
    assert(v[53][0] == 'm' && v[60][0] == 'p');
    assert(v[55][0] == 'm' && v[62][0] == 'f');
    assert(v[57][0] == 'p' && v[62][0] == 'f');
    assert(v[52][0] == 'm' && v[63][0] == 't');
    assert(v[55][0] == 'm' && v[64][0] == 'l');
    assert(v[57][0] == 'p' && v[64][0] == 'l');
    assert(v[62][0] == 'f' && v[64][0] == 'l');
    assert(v[53][0] == 'm' && v[65][0] == 'b');
    assert(v[60][0] == 'p' && v[65][0] == 'b');
    assert(distinct(v));
}

// ─── The interner's model ────────────────────────────────────────

/// No name occurs twice.
pub open spec fn distinct(v: Seq<Seq<char>>) -> bool {
    forall|i: int, j: int| 0 <= i < j < v.len() ==> v[i] != v[j]
}

/// The index at which `s` is stored, if it is.
pub open spec fn find_index(v: Seq<Seq<char>>, s: Seq<char>) -> Option<int> {
    if exists|i: int| 0 <= i < v.len() && v[i] == s {
        Some(choose|i: int| 0 <= i < v.len() && v[i] == s)
    } else {
        None
    }
}

/// The symbol index that interning `s` into `v` gives.
pub open spec fn interned_index(v: Seq<Seq<char>>, s: Seq<char>) -> int {
    match find_index(v, s) {
        Some(i) => i,
        None => v.len() as int,
    }
}

/// The table after interning `s` into `v`.
pub open spec fn interned_table(v: Seq<Seq<char>>, s: Seq<char>) -> Seq<Seq<char>> {
    match find_index(v, s) {
        Some(_) => v,
        None => v.push(s),
    }
}

pub proof fn lemma_find_index(v: Seq<Seq<char>>, s: Seq<char>, i: int)
    requires
        distinct(v),
        0 <= i < v.len(),
        v[i] == s,
    ensures
        find_index(v, s) == Some(i),
{
    let k = choose|k: int| 0 <= k < v.len() && v[k] == s;
    assert(0 <= k < v.len() && v[k] == s);
    if k < i {
        assert(v[k] != v[i]);
    }
    if i < k {
        assert(v[i] != v[k]);
    }
}

/// Interning gives back the name when the symbol is resolved, keeps every
/// earlier symbol, grows the table by at most one name, and keeps the
/// names distinct.
pub proof fn lemma_intern_table(v: Seq<Seq<char>>, s: Seq<char>)
    requires
        distinct(v),
    ensures
        0 <= interned_index(v, s) < interned_table(v, s).len(),
        interned_table(v, s)[interned_index(v, s)] == s,
        distinct(interned_table(v, s)),
        interned_table(v, s).len() <= v.len() + 1,
        forall|i: int| 0 <= i < v.len() ==> #[trigger] interned_table(v, s)[i] == v[i],
        (find_index(v, s) is None) <==> (interned_table(v, s).len() == v.len() + 1),
{
    match find_index(v, s) {
        Some(i) => {
            let k = choose|k: int| 0 <= k < v.len() && v[k] == s;
            assert(0 <= k < v.len() && v[k] == s);
        },
        None => {
            let w = v.push(s);
            assert forall|i: int, j: int| 0 <= i < j < w.len() implies w[i] != w[j] by {
                if j == v.len() {
                    assert(w[i] == v[i]);
                    if v[i] == s {
                        assert(exists|k: int| 0 <= k < v.len() && v[k] == s);
                    }
                }
            }
        },
    }
}

/// Interning the same name twice gives the same symbol and leaves the
/// table unchanged the second time.
pub proof fn lemma_intern_idempotent(v: Seq<Seq<char>>, s: Seq<char>)
    requires
        distinct(v),
    ensures
        interned_index(interned_table(v, s), s) == interned_index(v, s),
        interned_table(interned_table(v, s), s) == interned_table(v, s),
{
    lemma_intern_table(v, s);
    lemma_find_index(interned_table(v, s), s, interned_index(v, s));
}

/// Interning `s` and then looking it up gives its symbol, which resolves to
/// `s`; every symbol handed out before resolves as it did; and the symbol
/// is the old one when `s` was interned before, else the next free one.
pub proof fn lemma_intern_resolve_lookup(v: Seq<Seq<char>>, s: Seq<char>)
    requires
        distinct(v),
    ensures
        find_index(interned_table(v, s), s) == Some(interned_index(v, s)),
        interned_table(v, s)[interned_index(v, s)] == s,
        forall|i: int| 0 <= i < v.len() ==> #[trigger] interned_table(v, s)[i] == v[i],
        find_index(v, s) is Some ==> interned_index(v, s) < v.len() && interned_table(v, s) == v,
        find_index(v, s) is None ==> interned_index(v, s) == v.len() && interned_table(v, s).len() == v.len()
            + 1,
{
    lemma_intern_table(v, s);
    lemma_find_index(interned_table(v, s), s, interned_index(v, s));
    if find_index(v, s) is Some {
        let k = choose|k: int| 0 <= k < v.len() && v[k] == s;
        assert(0 <= k < v.len() && v[k] == s);
    }
}

/// Different names get different symbols.
pub proof fn lemma_intern_injective(v: Seq<Seq<char>>, a: Seq<char>, b: Seq<char>)
    requires
        distinct(v),
        a != b,
    ensures
        interned_index(v, a) != interned_index(interned_table(v, a), b),
{
    lemma_intern_table(v, a);
    let w = interned_table(v, a);
    lemma_intern_table(w, b);
    let ia = interned_index(v, a);
    assert(w[ia] == a);
    assert(interned_table(w, b)[ia] == a);
}

// ─── Interner ────────────────────────────────────────────────────

/// A bidirectional string interner: `intern` maps a string to a `Symbol`
/// (allocating one the first time the string is seen) and `resolve` maps a
/// symbol back to its string. Common names are pre-seeded.
pub struct Interner {
    /// Symbol index → string; no string occurs twice.
    strings: Vec<String>,
}

impl View for Interner {
    type V = Seq<Seq<char>>;

    closed spec fn view(&self) -> Seq<Seq<char>> {
        self.strings@.map_values(|s: String| s@)
    }
}

impl Interner {
    /// The table holds distinct names and every symbol index fits in `u32`.
    pub closed spec fn wf(&self) -> bool {
        &&& distinct(self@)
        &&& self@.len() <= u32::MAX
    }

    /// Create an interner pre-seeded with common HTML tags, attribute names
    /// and CSS property names, in the order of the `SYM_*` constants.
    pub fn new() -> (res: Self)
        ensures
            res.wf(),
            res@ == spec_pre_seeded(),
    {
        let names = pre_seeded_names();
        lemma_pre_seeded_distinct();
        assert(distinct(spec_pre_seeded()));
        let mut interner = Interner { strings: Vec::new() };
        let mut i: usize = 0;
        while i < names.len()
            invariant
                names@.len() == spec_pre_seeded().len(),
                forall|k: int| 0 <= k < names@.len() ==> #[trigger] names@[k]@ == spec_pre_seeded()[k],
                forall|k: int, j: int|
                    0 <= k < j < spec_pre_seeded().len() ==> #[trigger] spec_pre_seeded()[k]
                        != #[trigger] spec_pre_seeded()[j],
                i <= names@.len(),
                interner.wf(),
                interner@ == spec_pre_seeded().take(i as int),
            decreases names@.len() - i,
        {
            let ghost before = interner@;
            proof {
                let s = spec_pre_seeded()[i as int];
                if exists|k: int| 0 <= k < before.len() && before[k] == s {
                    let k = choose|k: int| 0 <= k < before.len() && before[k] == s;
                    assert(before[k] == spec_pre_seeded()[k]);
                }
            }
            interner.intern(names[i]);
            i += 1;
            assert(interner@ =~= spec_pre_seeded().take(i as int));
        }
        assert(spec_pre_seeded().take(67) =~= spec_pre_seeded());
        interner
    }

    /// Intern a string, returning its symbol: the existing symbol if the
    /// string was interned before, otherwise a new one. Case-sensitive.
    pub fn intern(&mut self, name: &str) -> (res: Symbol)
        requires
            old(self).wf(),
            old(self)@.len() < u32::MAX,
        ensures
            final(self).wf(),
            res.0 == interned_index(old(self)@, name@),
            final(self)@ == interned_table(old(self)@, name@),
            final(self)@[res.0 as int] == name@,
    {
        proof {
            lemma_intern_table(self@, name@);
        }
        let n = self.strings.len();
        let mut i: usize = 0;
        while i < n
            invariant
                n == self.strings@.len(),
                self.wf(),
                self@ == old(self)@,
                i <= n,
                forall|j: int| 0 <= j < i ==> self@[j] != name@,
            decreases n - i,
        {
            if str_eq(self.strings[i].as_str(), name) {
                proof {
                    lemma_find_index(self@, name@, i as int);
                }
                return Symbol(i as u32);
            }
            i += 1;
        }
        let sym = Symbol(n as u32);
        self.strings.push(owned(name));
        assert(self@ =~= old(self)@.push(name@));
        sym
    }

    /// Intern the ASCII-lowercased string (case-insensitive interning, as
    /// HTML tag names need).
    pub fn intern_lower(&mut self, name: &str) -> (res: Symbol)
        requires
            old(self).wf(),
            old(self)@.len() < u32::MAX,
        ensures
            final(self).wf(),
            res.0 == interned_index(old(self)@, lower(name@)),
            final(self)@ == interned_table(old(self)@, lower(name@)),
            final(self)@[res.0 as int] == lower(name@),
    {
        let lowered = to_ascii_lowercase(name);
        self.intern(lowered.as_str())
    }

    /// The string a symbol stands for. The symbol must come from this interner.
    pub fn resolve(&self, sym: Symbol) -> (res: &str)
        requires
            (sym.0 as int) < self@.len(),
        ensures
            res@ == self@[sym.0 as int],
    {
        self.strings[sym.0 as usize].as_str()
    }

    /// The string a symbol stands for, or `None` if the index is out of range.
    pub fn try_resolve(&self, sym: Symbol) -> (res: Option<&str>)
        ensures
            match res {
                Some(t) => (sym.0 as int) < self@.len() && t@ == self@[sym.0 as int],
                None => (sym.0 as int) >= self@.len(),
            },
    {
        let i = sym.0 as usize;
        if i < self.strings.len() {
            Some(self.strings[i].as_str())
        } else {
            None
        }
    }

    /// The symbol of a string that is already interned, without interning it.
    pub fn lookup(&self, name: &str) -> (res: Option<Symbol>)
        requires
            self.wf(),
        ensures
            match find_index(self@, name@) {
                Some(i) => res == Some(Symbol(i as u32)),
                None => res is None,
            },
    {
        let n = self.strings.len();
        let mut i: usize = 0;
        while i < n
            invariant
                n == self.strings@.len(),
                self.wf(),
                i <= n,
                forall|j: int| 0 <= j < i ==> self@[j] != name@,
            decreases n - i,
        {
            if str_eq(self.strings[i].as_str(), name) {
                proof {
                    lemma_find_index(self@, name@, i as int);
                }
                return Some(Symbol(i as u32));
            }
            i += 1;
        }
        None
    }

    /// How many distinct strings are interned.
    pub fn len(&self) -> (res: usize)
        ensures
            res == self@.len(),
    {
        self.strings.len()
    }

    /// Whether nothing is interned (never after `new`).
    pub fn is_empty(&self) -> (res: bool)
        ensures
            res == (self@.len() == 0),
    {
        self.strings.len() == 0
    }
}

} // verus!
