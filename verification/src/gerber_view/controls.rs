//! Optional built-in layer panel. Hosts that draw their own chrome leave it off
//! and drive the viewer through the JS API instead.
//!
//! Elements carry `gv-*` classes so hosts can restyle them. Interaction is
//! delegated: checkboxes have `data-gv-layer="<index>"`, buttons `data-gv-action`.
use vstd::prelude::*;

use crate::text::{chars_of, decimal, decimal_chars, push_chars, push_str, to_string};

verus! {

/// One row of the layer panel.
pub struct PanelRow<'a> {
    pub label: &'a str,
    pub name: &'a str,
    pub color: &'a str,
    pub visible: bool,
}

/// The HTML text that stands for one character.
pub open spec fn escape_char(c: char) -> Seq<char> {
    if c == '&' {
        "&amp;"@
    } else if c == '<' {
        "&lt;"@
    } else if c == '>' {
        "&gt;"@
    } else if c == '"' {
        "&quot;"@
    } else if c == '\'' {
        "&#39;"@
    } else {
        seq![c]
    }
}

/// A string with `&`, `<`, `>`, `"` and `'` replaced by HTML entities.
pub open spec fn escape_spec(s: Seq<char>) -> Seq<char>
    decreases s.len(),
{
    if s.len() == 0 {
        Seq::empty()
    } else {
        escape_spec(s.drop_last()) + escape_char(s.last())
    }
}

/// The toolbar with the side toggle and the fit button.
pub open spec fn toolbar_html(from_bottom: bool) -> Seq<char> {
    "<div class=\"gv-toolbar\" style=\"display:flex;gap:4px;margin-bottom:4px\"><button type=\"button\" class=\"gv-button\" data-gv-action=\"side\">"@
        + (if from_bottom { "Top view"@ } else { "Bottom view"@ })
        + "</button><button type=\"button\" class=\"gv-button\" data-gv-action=\"fit\">Fit</button></div>"@
}

/// The checkbox row for layer `i`.
pub open spec fn row_html(i: nat, row: PanelRow) -> Seq<char> {
    "<label class=\"gv-layer\" title=\""@ + escape_spec(row.name@)
        + "\" style=\"display:flex;align-items:center;gap:6px;white-space:nowrap\"><input type=\"checkbox\" data-gv-layer=\""@
        + decimal(i) + "\""@ + (if row.visible { " checked"@ } else { ""@ })
        + "><span class=\"gv-swatch\" style=\"display:inline-block;width:10px;height:10px;border-radius:2px;background:"@
        + escape_spec(row.color@) + "\"></span>"@ + escape_spec(row.label@) + "</label>"@
}

/// The rows of the panel, numbered from 0.
pub open spec fn rows_html(rows: Seq<PanelRow>) -> Seq<char>
    decreases rows.len(),
{
    if rows.len() == 0 {
        Seq::empty()
    } else {
        rows_html(rows.drop_last()) + row_html((rows.len() - 1) as nat, rows.last())
    }
}

/// The whole panel.
pub open spec fn panel_spec(rows: Seq<PanelRow>, from_bottom: bool) -> Seq<char> {
    toolbar_html(from_bottom) + rows_html(rows)
}

/// The panel markup: a toolbar, then one checkbox row per layer, numbered in
/// order, with every host-supplied text escaped.
pub fn panel_html(rows: &[PanelRow], from_bottom: bool) -> (res: String)
    requires
        rows.len() <= u64::MAX,
    ensures
        res@ == panel_spec(rows@, from_bottom),
{
    let mut html = to_string(
        "<div class=\"gv-toolbar\" style=\"display:flex;gap:4px;margin-bottom:4px\"><button type=\"button\" class=\"gv-button\" data-gv-action=\"side\">",
    );
    if from_bottom {
        push_str(&mut html, "Top view");
    } else {
        push_str(&mut html, "Bottom view");
    }
    push_str(
        &mut html,
        "</button><button type=\"button\" class=\"gv-button\" data-gv-action=\"fit\">Fit</button></div>",
    );
    let mut i: usize = 0;
    while i < rows.len()
        invariant
            i <= rows.len() <= u64::MAX,
            html@ == toolbar_html(from_bottom) + rows_html(rows@.take(i as int)),
        decreases rows.len() - i,
    {
        let row = &rows[i];
        let ghost before = html@;
        push_str(&mut html, "<label class=\"gv-layer\" title=\"");
        let name = escape(row.name);
        push_str(&mut html, name.as_str());
        push_str(
            &mut html,
            "\" style=\"display:flex;align-items:center;gap:6px;white-space:nowrap\"><input type=\"checkbox\" data-gv-layer=\"",
        );
        let digits = decimal_chars(i as u64);
        push_chars(&mut html, &digits);
        push_str(&mut html, "\"");
        if row.visible {
            push_str(&mut html, " checked");
        } else {
            push_str(&mut html, "");
        }
        push_str(
            &mut html,
            "><span class=\"gv-swatch\" style=\"display:inline-block;width:10px;height:10px;border-radius:2px;background:",
        );
        let color = escape(row.color);
        push_str(&mut html, color.as_str());
        push_str(&mut html, "\"></span>");
        let label = escape(row.label);
        push_str(&mut html, label.as_str());
        push_str(&mut html, "</label>");
        proof {
            let t = rows@.take(i + 1);
            assert(t.drop_last() == rows@.take(i as int));
            assert(t.last() == rows@[i as int]);
            assert(html@ == before + row_html(i as nat, rows@[i as int]));
        }
        i += 1;
    }
    assert(rows@.take(rows.len() as int) == rows@);
    html
}

/// Escapes `&`, `<`, `>`, `"` and `'` for use in HTML text and attributes.
fn escape(s: &str) -> (res: String)
    ensures
        res@ == escape_spec(s@),
{
    let cs = chars_of(s);
    let mut out = String::new();
    let mut i: usize = 0;
    while i < cs.len()
        invariant
            i <= cs.len(),
            cs@ == s@,
            out@ == escape_spec(cs@.take(i as int)),
        decreases cs.len() - i,
    {
        let c = cs[i];
        if c == '&' {
            push_str(&mut out, "&amp;");
        } else if c == '<' {
            push_str(&mut out, "&lt;");
        } else if c == '>' {
            push_str(&mut out, "&gt;");
        } else if c == '"' {
            push_str(&mut out, "&quot;");
        } else if c == '\'' {
            push_str(&mut out, "&#39;");
        } else {
            crate::text::push_char(&mut out, c);
        }
        proof {
            let t = cs@.take(i + 1);
            assert(t.drop_last() == cs@.take(i as int));
            assert(t.last() == c);
        }
        i += 1;
    }
    assert(cs@.take(cs.len() as int) == cs@);
    out
}

/// Escaped text holds no character that could end an attribute value or
/// open or close a tag.
pub proof fn lemma_escape_has_no_markup(s: Seq<char>)
    ensures
        forall|k: int| 0 <= k < escape_spec(s).len() ==> {
            let c = #[trigger] escape_spec(s)[k];
            c != '"' && c != '\'' && c != '<' && c != '>'
        },
    decreases s.len(),
{
    reveal_strlit("&amp;");
    reveal_strlit("&lt;");
    reveal_strlit("&gt;");
    reveal_strlit("&quot;");
    reveal_strlit("&#39;");
    if s.len() > 0 {
        lemma_escape_has_no_markup(s.drop_last());
        let a = escape_spec(s.drop_last());
        let b = escape_char(s.last());
        assert forall|k: int| 0 <= k < escape_spec(s).len() implies {
            let c = #[trigger] escape_spec(s)[k];
            c != '"' && c != '\'' && c != '<' && c != '>'
        } by {
            if k < a.len() {
                assert(escape_spec(s)[k] == a[k]);
            } else {
                assert(escape_spec(s)[k] == b[k - a.len()]);
            }
        }
    }
}

} // verus!
