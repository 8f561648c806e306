//! Core data types shared by the conversion pipeline.

use vstd::prelude::*;

use crate::text::chars::{push_char, push_chars, str_chars, trim, trim_exec};
use crate::text::words::append_chars;

verus! {

/// A 1-indexed page number.
#[derive(Clone, Copy, Debug, PartialEq, Eq, Structural, PartialOrd, Ord, Hash)]
pub struct PageNum(u32);

impl View for PageNum {
    type V = nat;

    closed spec fn view(&self) -> nat {
        self.0 as nat
    }
}

impl PageNum {
    /// Page numbers start at 1.
    #[verifier::type_invariant]
    spec fn positive(self) -> bool {
        self.0 > 0
    }

    /// Create a new page number. Page numbers start at 1.
    pub fn new(n: u32) -> (r: Self)
        requires
            n > 0,
        ensures
            r@ == n,
    {
        PageNum(n)
    }

    /// Return the raw 1-indexed value.
    pub fn get(self) -> (r: u32)
        ensures
            r == self@,
            r > 0,
    {
        proof {
            use_type_invariant(&self);
        }
        self.0
    }

    /// The page number in decimal, as it is displayed.
    pub fn to_string(&self) -> (r: String)
        ensures
            r@ == decimal(self@),
    {
        let mut s = String::new();
        push_decimal(&mut s, self.0);
        s
    }
}

/// The ASCII digit for `d < 10`.
pub open spec fn digit_char(d: nat) -> char {
    ((48 + d) as u8) as char
}

/// The decimal representation of `n`, without leading zeros.
pub open spec fn decimal(n: nat) -> Seq<char>
    decreases n,
{
    if n < 10 {
        seq![digit_char(n)]
    } else {
        decimal(n / 10).push(digit_char(n % 10))
    }
}

/// Appends the decimal representation of `n` to `out`.
pub fn push_decimal(out: &mut String, n: u32)
    ensures
        final(out)@ == old(out)@ + decimal(n as nat),
    decreases n,
{
    if n >= 10 {
        push_decimal(out, n / 10);
    }
    let d: u8 = (n % 10) as u8;
    let c = (48u8 + d) as char;
    push_char(out, c);
    assert(final(out)@ =~= old(out)@ + decimal(n as nat)) by {
        if n >= 10 {
            assert(old(out)@ + decimal(n as nat) =~= (old(out)@ + decimal((n / 10) as nat)).push(
                digit_char((n % 10) as nat),
            ));
        }
    }
}

/// The kind of a content item extracted from a PDF.
#[derive(Debug, Clone)]
#[non_exhaustive]
pub enum ItemKind {
    /// Regular text content.
    Text,
    /// An image placeholder.
    Image,
    /// A hyperlink with its target URL.
    Link(String),
    /// A form field.
    FormField,
}

impl Default for ItemKind {
    fn default() -> (r: Self)
        ensures
            r is Text,
    {
        ItemKind::Text
    }
}

/// The final result of converting a PDF to Markdown.
#[derive(Debug)]
pub struct Document {
    /// The generated Markdown text.
    pub markdown: String,
    /// Total number of pages in the PDF.
    pub page_count: u32,
    /// Title from PDF metadata, if available.
    pub title: Option<String>,
}

// ── Lines of text ──────────────────────────────────────────────────

/// A text fragment of a line, as the line's text is built from it.
#[derive(Debug, Clone)]
pub struct LineItem {
    /// The decoded text content.
    pub text: String,
    /// Whether the font is bold.
    pub bold: bool,
    /// Whether the font is italic.
    pub italic: bool,
    /// Whether the item's position joins it to the item before it without
    /// a space: a sub- or superscript step, or a gap too narrow for a word
    /// break. (Worked out from the items' geometry; unused for the first
    /// item.)
    pub attached: bool,
}

/// A line of text: fragments that share approximately the same baseline,
/// in reading order.
#[derive(Debug, Clone)]
pub struct TextLine {
    /// The items that make up this line, in reading order.
    pub items: Vec<LineItem>,
    /// Page this line belongs to.
    pub page: PageNum,
}

/// The last character of `s` is `c`.
pub open spec fn ends_with_char(s: Seq<char>, c: char) -> bool {
    s.len() > 0 && s.last() == c
}

/// Whether a space goes between the text built so far and the next
/// item: not after a hyphen, not before a hyphen or an item that starts
/// with one, not when the items are joined by position, and not when a
/// space is already there.
pub open spec fn space_needed(result: Seq<char>, curr: Seq<char>, attached: bool) -> bool {
    !(ends_with_char(result, '-') || trim(curr) == seq!['-'] || (curr.len() > 0 && curr[0] == '-')
        || attached || ends_with_char(result, ' ') || (curr.len() > 0 && curr[0] == ' '))
}

/// The plain text of the first `k` items: each item's text, with a space
/// before it where one is needed.
pub open spec fn plain_text(items: Seq<LineItem>, k: nat) -> Seq<char>
    decreases k,
{
    if k == 0 {
        seq![]
    } else {
        let prev = plain_text(items, (k - 1) as nat);
        let it = items[k - 1];
        (if k > 1 && space_needed(prev, it.text@, it.attached) {
            prev.push(' ')
        } else {
            prev
        }) + it.text@
    }
}

/// Close the markers of styles that end, italic first.
pub open spec fn close_styles(r: Seq<char>, cb: bool, ci: bool, ib: bool, ii: bool) -> (
    Seq<char>,
    bool,
    bool,
) {
    let r1 = if ci && !ii {
        r.push('*')
    } else {
        r
    };
    let r2 = if cb && !ib {
        r1 + seq!['*', '*']
    } else {
        r1
    };
    (r2, cb && ib, ci && ii)
}

/// Open the markers of styles that begin, bold first.
pub open spec fn open_styles(r: Seq<char>, cb: bool, ci: bool, ib: bool, ii: bool) -> (
    Seq<char>,
    bool,
    bool,
) {
    let r1 = if ib && !cb {
        r + seq!['*', '*']
    } else {
        r
    };
    let r2 = if ii && !ci {
        r1.push('*')
    } else {
        r1
    };
    (r2, cb || ib, ci || ii)
}

/// One formatting step: the text, open bold marker and open italic marker
/// after the item `it`. A blank item changes nothing; otherwise markers of
/// styles that end are closed before the separating space, markers of
/// styles that begin are opened after it, and the item's trimmed text
/// follows.
pub open spec fn format_step(
    state: (Seq<char>, bool, bool),
    it: LineItem,
    first: bool,
    bold: bool,
    italic: bool,
) -> (Seq<char>, bool, bool) {
    let (r, cb, ci) = state;
    let t = it.text@;
    let tt = trim(t);
    if tt.len() == 0 {
        state
    } else {
        let needs = if first || r.len() == 0 {
            false
        } else {
            space_needed(r, t, it.attached)
        };
        let lead = t.len() > 0 && t[0] == ' ';
        let ib = bold && it.bold;
        let ii = italic && it.italic;
        let (r2, cb1, ci1) = close_styles(r, cb, ci, ib, ii);
        let r3 = if needs || (lead && r2.len() > 0 && !ends_with_char(r2, ' ')) {
            r2.push(' ')
        } else {
            r2
        };
        let (r5, cb2, ci2) = open_styles(r3, cb1, ci1, ib, ii);
        (r5 + tt, cb2, ci2)
    }
}

/// The text, open bold marker and open italic marker after the first `k`
/// items with formatting.
pub open spec fn formatted_state(items: Seq<LineItem>, bold: bool, italic: bool, k: nat) -> (
    Seq<char>,
    bool,
    bool,
)
    decreases k,
{
    if k == 0 {
        (seq![], false, false)
    } else {
        format_step(
            formatted_state(items, bold, italic, (k - 1) as nat),
            items[k - 1],
            k == 1,
            bold,
            italic,
        )
    }
}

/// The text of a line with the requested bold and italic markers, the
/// markers still open closed at the end (italic first); without either
/// kind of marker, the plain text.
pub open spec fn formatted_text(items: Seq<LineItem>, bold: bool, italic: bool) -> Seq<char> {
    if !bold && !italic {
        plain_text(items, items.len())
    } else {
        let (r, cb, ci) = formatted_state(items, bold, italic, items.len());
        let r1 = if ci {
            r.push('*')
        } else {
            r
        };
        if cb {
            r1 + seq!['*', '*']
        } else {
            r1
        }
    }
}

fn ends_with_char_exec(v: &Vec<char>, c: char) -> (r: bool)
    ensures
        r == ends_with_char(v@, c),
{
    v.len() > 0 && v[v.len() - 1] == c
}

impl TextLine {
    /// Get the plain text of this line (items joined with appropriate
    /// spacing).
    pub fn text(&self) -> (r: String)
        ensures
            r@ == plain_text(self.items@, self.items@.len()),
    {
        self.text_with_formatting(false, false)
    }

    /// Get text with optional bold/italic markdown formatting.
    pub fn text_with_formatting(&self, format_bold: bool, format_italic: bool) -> (r: String)
        ensures
            r@ == formatted_text(self.items@, format_bold, format_italic),
    {
        if !format_bold && !format_italic {
            return self.text_plain();
        }
        let mut result: Vec<char> = Vec::new();
        let mut current_bold = false;
        let mut current_italic = false;
        let mut i: usize = 0;
        while i < self.items.len()
            invariant
                i <= self.items@.len(),
                (result@, current_bold, current_italic) == formatted_state(
                    self.items@,
                    format_bold,
                    format_italic,
                    i as nat,
                ),
            decreases self.items@.len() - i,
        {
            Self::format_item(
                &mut result,
                &mut current_bold,
                &mut current_italic,
                &self.items[i],
                i == 0,
                format_bold,
                format_italic,
            );
            i += 1;
        }
        if current_italic {
            result.push('*');
        }
        if current_bold {
            result.push('*');
            result.push('*');
        }
        let mut out = String::new();
        push_chars(&mut out, result.as_slice());
        out
    }

    /// Close the markers of styles that end; see [`close_styles`].
    fn close_markers(
        result: &mut Vec<char>,
        current_bold: &mut bool,
        current_italic: &mut bool,
        item_bold: bool,
        item_italic: bool,
    )
        ensures
            (final(result)@, *final(current_bold), *final(current_italic)) == close_styles(
                old(result)@,
                *old(current_bold),
                *old(current_italic),
                item_bold,
                item_italic,
            ),
    {
        if *current_italic && !item_italic {
            result.push('*');
            *current_italic = false;
        }
        if *current_bold && !item_bold {
            result.push('*');
            result.push('*');
            *current_bold = false;
        }
        assert(result@ =~= close_styles(
            old(result)@,
            *old(current_bold),
            *old(current_italic),
            item_bold,
            item_italic,
        ).0);
    }

    /// Open the markers of styles that begin; see [`open_styles`].
    fn open_markers(
        result: &mut Vec<char>,
        current_bold: &mut bool,
        current_italic: &mut bool,
        item_bold: bool,
        item_italic: bool,
    )
        ensures
            (final(result)@, *final(current_bold), *final(current_italic)) == open_styles(
                old(result)@,
                *old(current_bold),
                *old(current_italic),
                item_bold,
                item_italic,
            ),
    {
        if item_bold && !*current_bold {
            result.push('*');
            result.push('*');
            *current_bold = true;
        }
        if item_italic && !*current_italic {
            result.push('*');
            *current_italic = true;
        }
        assert(result@ =~= open_styles(
            old(result)@,
            *old(current_bold),
            *old(current_italic),
            item_bold,
            item_italic,
        ).0);
    }

    /// Add one item to the formatted text; see [`format_step`].
    fn format_item(
        result: &mut Vec<char>,
        current_bold: &mut bool,
        current_italic: &mut bool,
        item: &LineItem,
        first: bool,
        format_bold: bool,
        format_italic: bool,
    )
        ensures
            (final(result)@, *final(current_bold), *final(current_italic)) == format_step(
                (old(result)@, *old(current_bold), *old(current_italic)),
                *item,
                first,
                format_bold,
                format_italic,
            ),
    {
        let text = str_chars(item.text.as_str());
        let text_trimmed = trim_exec(text.as_slice());
        if text_trimmed.len() == 0 {
            return;
        }
        let needs_space = if first || result.len() == 0 {
            false
        } else {
            Self::needs_space_between(item, result)
        };
        let has_leading_space = text.len() > 0 && text[0] == ' ';
        let item_bold = format_bold && item.bold;
        let item_italic = format_italic && item.italic;
        Self::close_markers(result, current_bold, current_italic, item_bold, item_italic);
        if needs_space || (has_leading_space && result.len() > 0 && !ends_with_char_exec(
            result,
            ' ',
        )) {
            result.push(' ');
        }
        Self::open_markers(result, current_bold, current_italic, item_bold, item_italic);
        append_chars(result, text_trimmed.as_slice());
    }

    /// Get plain text without formatting.
    fn text_plain(&self) -> (r: String)
        ensures
            r@ == plain_text(self.items@, self.items@.len()),
    {
        let mut result: Vec<char> = Vec::new();
        let mut i: usize = 0;
        while i < self.items.len()
            invariant
                i <= self.items@.len(),
                result@ == plain_text(self.items@, i as nat),
            decreases self.items@.len() - i,
        {
            let item = &self.items[i];
            if i > 0 && Self::needs_space_between(item, &result) {
                result.push(' ');
            }
            let text = str_chars(item.text.as_str());
            append_chars(&mut result, text.as_slice());
            i += 1;
        }
        let mut out = String::new();
        push_chars(&mut out, result.as_slice());
        out
    }

    /// Determine if a space is needed between the text built so far and
    /// the next item.
    fn needs_space_between(curr: &LineItem, result: &Vec<char>) -> (r: bool)
        ensures
            r == space_needed(result@, curr.text@, curr.attached),
    {
        let text = str_chars(curr.text.as_str());
        let prev_ends_with_hyphen = ends_with_char_exec(result, '-');
        let trimmed = trim_exec(text.as_slice());
        let curr_is_hyphen = trimmed.len() == 1 && trimmed[0] == '-';
        assert(curr_is_hyphen == (trim(curr.text@) == seq!['-'])) by {
            if trim(curr.text@) == seq!['-'] {
                assert(trimmed@.len() == 1 && trimmed@[0] == '-');
            }
            if curr_is_hyphen {
                assert(trimmed@ =~= seq!['-']);
            }
        }
        let curr_starts_with_hyphen = text.len() > 0 && text[0] == '-';
        let prev_ends_with_space = ends_with_char_exec(result, ' ');
        let curr_starts_with_space = text.len() > 0 && text[0] == ' ';
        let space_exists = prev_ends_with_space || curr_starts_with_space;
        !(prev_ends_with_hyphen || curr_is_hyphen || curr_starts_with_hyphen || curr.attached
            || space_exists)
    }
}

/// The markers that close when a line goes from an item styled
/// (`pb`, `pi`) to one styled (`ib`, `ii`): `*` if italic ends, then `**`
/// if bold ends.
pub open spec fn closing_markers(pb: bool, pi: bool, ib: bool, ii: bool) -> Seq<char> {
    (if pi && !ii {
        seq!['*']
    } else {
        seq![]
    }) + (if pb && !ib {
        seq!['*', '*']
    } else {
        seq![]
    })
}

/// The markers that open when a line goes from an item styled (`pb`,
/// `pi`) to one styled (`ib`, `ii`): `**` if bold begins, then `*` if
/// italic begins.
pub open spec fn opening_markers(pb: bool, pi: bool, ib: bool, ii: bool) -> Seq<char> {
    (if ib && !pb {
        seq!['*', '*']
    } else {
        seq![]
    }) + (if ii && !pi {
        seq!['*']
    } else {
        seq![]
    })
}

/// One step on an item with text: the text built so far, the closing
/// markers, at most one space, the opening markers and the item's trimmed
/// text, in that order; the open markers are then those of the item.
proof fn lemma_format_step_text(
    state: (Seq<char>, bool, bool),
    it: LineItem,
    first: bool,
    bold: bool,
    italic: bool,
)
    requires
        trim(it.text@).len() > 0,
    ensures
        ({
            let (r, cb, ci) = state;
            let (r5, cb2, ci2) = format_step(state, it, first, bold, italic);
            let closing = closing_markers(cb, ci, bold && it.bold, italic && it.italic);
            let t = trim(it.text@);
            &&& (r + closing).len() <= r5.len()
            &&& r5.subrange(0, (r + closing).len() as int) == r + closing
            &&& t.len() <= r5.len()
            &&& r5.subrange(r5.len() - t.len(), r5.len() as int) == t
            &&& cb2 == (bold && it.bold)
            &&& ci2 == (italic && it.italic)
            &&& (r5 == r + closing + opening_markers(cb, ci, bold && it.bold, italic && it.italic)
                + t || r5 == r + closing + seq![' '] + opening_markers(
                cb,
                ci,
                bold && it.bold,
                italic && it.italic,
            ) + t)
        }),
{
    let (r, cb, ci) = state;
    let ib = bold && it.bold;
    let ii = italic && it.italic;
    let (r2, cb1, ci1) = close_styles(r, cb, ci, ib, ii);
    assert(r2 =~= r + closing_markers(cb, ci, ib, ii));
    let out = format_step(state, it, first, bold, italic).0;
    let t = trim(it.text@);
    assert(out.subrange(0, r2.len() as int) =~= r2);
    assert(out.subrange(out.len() - t.len(), out.len() as int) =~= t);
    let op = opening_markers(cb, ci, ib, ii);
    let c = closing_markers(cb, ci, ib, ii);
    assert(out =~= r + c + op + t || out =~= r + c + seq![' '] + op + t);
}

/// A styled run closes right after its last text, before any separating
/// space: when items `k - 1` and `k` both have text, the text built after
/// item `k - 1` ends with that item's trimmed text, and the text built
/// after item `k` starts with it followed directly by the markers of the
/// styles that end (`*` for italic, then `**` for bold).
pub proof fn lemma_markers_close_before_space(
    items: Seq<LineItem>,
    bold: bool,
    italic: bool,
    k: nat,
)
    requires
        1 <= k < items.len(),
        trim(items[k - 1].text@).len() > 0,
        trim(items[k as int].text@).len() > 0,
    ensures
        ({
            let before = formatted_state(items, bold, italic, k).0;
            let after = formatted_state(items, bold, italic, (k + 1) as nat).0;
            let t = trim(items[k - 1].text@);
            let closing = closing_markers(
                bold && items[k - 1].bold,
                italic && items[k - 1].italic,
                bold && items[k as int].bold,
                italic && items[k as int].italic,
            );
            &&& t.len() <= before.len()
            &&& before.subrange(before.len() - t.len(), before.len() as int) == t
            &&& (before + closing).len() <= after.len()
            &&& after.subrange(0, (before + closing).len() as int) == before + closing
            &&& ({
                let opening = opening_markers(
                    bold && items[k - 1].bold,
                    italic && items[k - 1].italic,
                    bold && items[k as int].bold,
                    italic && items[k as int].italic,
                );
                let u = trim(items[k as int].text@);
                after == before + closing + opening + u || after == before + closing + seq![' ']
                    + opening + u
            })
        }),
{
    let prev = formatted_state(items, bold, italic, (k - 1) as nat);
    assert(formatted_state(items, bold, italic, k) == format_step(
        prev,
        items[k - 1],
        k == 1,
        bold,
        italic,
    ));
    lemma_format_step_text(prev, items[k - 1], k == 1, bold, italic);
    let cur = formatted_state(items, bold, italic, k);
    assert(formatted_state(items, bold, italic, (k + 1) as nat) == format_step(
        cur,
        items[k as int],
        false,
        bold,
        italic,
    ));
    lemma_format_step_text(cur, items[k as int], false, bold, italic);
}

} // verus!
