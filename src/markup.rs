use vstd::prelude::*;
use crate::task::Task;
use crate::text::{chars_of, push_char, push_str};

verus! {

/// Lower-case hexadecimal digit.
pub open spec fn hex_digit(n: int) -> char {
    if n < 10 {
        ((n + '0' as int) as u8) as char
    } else {
        ((n - 10 + 'a' as int) as u8) as char
    }
}

/// Control characters that markup writes as a character reference.
pub open spec fn is_restricted(c: char) -> bool {
    let n = c as int;
    (0x1 <= n <= 0x8) || (0xb <= n <= 0xc) || (0xe <= n <= 0x1f) || (0x7f <= n <= 0x84) || (0x86
        <= n <= 0x9f)
}

/// Markup for one character of plain text.
pub open spec fn escape_char(c: char) -> Seq<char> {
    if c == '&' {
        "&amp;"@
    } else if c == '<' {
        "&lt;"@
    } else if c == '>' {
        "&gt;"@
    } else if c == '\'' {
        "&apos;"@
    } else if c == '"' {
        "&quot;"@
    } else if is_restricted(c) {
        let n = c as int;
        if n < 16 {
            seq!['&', '#', 'x', hex_digit(n), ';']
        } else {
            seq!['&', '#', 'x', hex_digit(n / 16), hex_digit(n % 16), ';']
        }
    } else {
        seq![c]
    }
}

/// Plain text written as markup: the markup characters and the restricted
/// control characters become references.
pub open spec fn markup_escaped(s: Seq<char>) -> Seq<char>
    decreases s.len(),
{
    if s.len() == 0 {
        s
    } else {
        markup_escaped(s.drop_last()) + escape_char(s.last())
    }
}

fn hex_char(n: u32) -> (r: char)
    requires
        n < 16,
    ensures
        r == hex_digit(n as int),
{
    if n < 10 {
        ((n as u8) + 48u8) as char
    } else {
        ((n as u8) - 10 + 97u8) as char
    }
}

/// Writes plain text as markup: `&`, `<`, `>`, `'` and `"` and the
/// restricted control characters become references.
pub fn markup_escape(text: &str) -> (r: String)
    ensures
        r@ == markup_escaped(text@),
{
    let v = chars_of(text);
    let mut s = String::new();
    let mut i: usize = 0;
    while i < v.len()
        invariant
            0 <= i <= v.len(),
            v@ == text@,
            s@ == markup_escaped(v@.subrange(0, i as int)),
        decreases v.len() - i,
    {
        let c = v[i];
        let ghost s0 = s@;
        proof {
            assert(v@.subrange(0, i + 1).drop_last() =~= v@.subrange(0, i as int));
        }
        if c == '&' {
            push_str(&mut s, "&amp;");
        } else if c == '<' {
            push_str(&mut s, "&lt;");
        } else if c == '>' {
            push_str(&mut s, "&gt;");
        } else if c == '\'' {
            push_str(&mut s, "&apos;");
        } else if c == '"' {
            push_str(&mut s, "&quot;");
        } else if ('\u{1}' <= c && c <= '\u{8}') || ('\u{b}' <= c && c <= '\u{c}') || ('\u{e}' <= c
            && c <= '\u{1f}') || ('\u{7f}' <= c && c <= '\u{84}') || ('\u{86}' <= c && c <= '\u{9f}') {
            let n = c as u32;
            push_str(&mut s, "&#x");
            if n >= 16 {
                push_char(&mut s, hex_char(n / 16));
            }
            push_char(&mut s, hex_char(n % 16));
            push_char(&mut s, ';');
            proof {
                reveal_strlit("&#x");
                assert(n as int == c as int);
                if n < 16 {
                    assert(s@ =~= s0 + escape_char(c));
                } else {
                    assert(s@ =~= s0 + escape_char(c));
                }
            }
        } else {
            push_char(&mut s, c);
        }
        proof {
            assert(s@ =~= s0 + escape_char(c));
        }
        i = i + 1;
    }
    proof {
        assert(v@.subrange(0, v.len() as int) =~= v@);
    }
    s
}

/// What replacing each URL (`scheme://...`) of a text by `template`, with
/// `$url` standing for the URL, makes of it.
pub uninterp spec fn urls_replaced(s: Seq<char>, template: Seq<char>) -> Seq<char>;

/// What replacing each `+project` and `@context` token that starts the text
/// or follows white space by `template`, with `$space` standing for that
/// white space and `$tag` for the token, makes of it.
pub uninterp spec fn tags_replaced(s: Seq<char>, template: Seq<char>) -> Seq<char>;

/// Relies on `regex::Regex::replace_all` with the fixed, valid pattern of a
/// URL, and `$url` expanded in `template`.
#[verifier::external_body]
fn replace_urls(s: &str, template: &str) -> (r: String)
    ensures
        r@ == urls_replaced(s@, template@),
{
    let regex = regex::Regex::new(r"(?P<url>[\w]+://[^\s]+)").unwrap();
    regex.replace_all(s, template).into_owned()
}

/// Relies on `regex::Regex::replace_all` with the fixed, valid pattern of a
/// project or context token, and `$space`, `$tag` expanded in `template`.
#[verifier::external_body]
fn replace_tags(s: &str, template: &str) -> (r: String)
    ensures
        r@ == tags_replaced(s@, template@),
{
    let regex = regex::Regex::new(r"(?P<space>^|[\s])(?P<tag>[\+@][\w\-\\]+)").unwrap();
    regex.replace_all(s, template).into_owned()
}

/// Link markup around a URL.
pub open spec fn link_template() -> Seq<char> {
    "<a href=\"$url\">$url</a>"@
}

/// Bold markup around a token, after the white space before it.
pub open spec fn bold_template() -> Seq<char> {
    "$space<b>$tag</b>"@
}

impl Task {
    /// The subject as markup: escaped first, then with its URLs as links and
    /// its projects and contexts in bold.
    pub fn markup_subject(&self) -> (r: String)
        ensures
            r@ == tags_replaced(
                urls_replaced(markup_escaped(self.entry.subject@), link_template()),
                bold_template(),
            ),
    {
        let escaped = markup_escape(self.entry.subject.as_str());
        let linked = replace_urls(escaped.as_str(), "<a href=\"$url\">$url</a>");
        replace_tags(linked.as_str(), "$space<b>$tag</b>")
    }
}

} // verus!

verus! {

/// One event of a parsed Markdown text, as far as note markup reads it.
#[derive(Clone, Debug, PartialEq, Eq)]
pub enum MdEvent {
    /// Start of a heading of the given level (1 to 6).
    Heading(u8),
    HeadingEnd,
    Paragraph,
    ParagraphEnd,
    Code,
    CodeEnd,
    Emphasis,
    EmphasisEnd,
    Strong,
    StrongEnd,
    Item,
    ItemEnd,
    SoftBreak,
    /// Start of a link: its destination and its title.
    Link(String, String),
    LinkEnd,
    Text(String),
    /// Any other event; it writes nothing.
    Other,
}

/// Font size of a heading level; levels past 6 take the smallest.
pub open spec fn header_size(level: u8) -> Seq<char> {
    if level == 0 {
        "xx-large"@
    } else if level == 1 {
        "x-large"@
    } else if level == 2 {
        "large"@
    } else if level == 3 {
        "medium"@
    } else if level == 4 {
        "small"@
    } else if level == 5 {
        "x-small"@
    } else {
        "xx-small"@
    }
}

/// Text with each `&` written as `&amp;`.
pub open spec fn amp_escaped(s: Seq<char>) -> Seq<char>
    decreases s.len(),
{
    if s.len() == 0 {
        s
    } else if s.last() == '&' {
        amp_escaped(s.drop_last()) + "&amp;"@
    } else {
        amp_escaped(s.drop_last()).push(s.last())
    }
}

/// Markup written for one event.
pub open spec fn event_markup(e: MdEvent) -> Seq<char> {
    match e {
        MdEvent::Heading(l) => "<span font_size='"@ + header_size(l) + "'><u>"@,
        MdEvent::HeadingEnd => "</u></span>\n\n"@,
        MdEvent::Paragraph => "<span>"@,
        MdEvent::ParagraphEnd => "</span>\n"@,
        MdEvent::Code => "<tt>"@,
        MdEvent::CodeEnd => "</tt>"@,
        MdEvent::Emphasis => "<i>"@,
        MdEvent::EmphasisEnd => "</i>"@,
        MdEvent::Strong => "<b>"@,
        MdEvent::StrongEnd => "</b>"@,
        MdEvent::Item => "\u{b7} "@,
        MdEvent::ItemEnd => "\n"@,
        MdEvent::SoftBreak => "\n"@,
        MdEvent::Link(u, t) => "<a href='"@ + u@ + "' title='"@ + t@ + "'>"@,
        MdEvent::LinkEnd => "</a>"@,
        MdEvent::Text(t) => amp_escaped(t@),
        MdEvent::Other => Seq::empty(),
    }
}

/// Markup of a run of events, one after the other.
pub open spec fn events_markup(es: Seq<MdEvent>) -> Seq<char>
    decreases es.len(),
{
    if es.len() == 0 {
        Seq::empty()
    } else {
        events_markup(es.drop_last()) + event_markup(es.last())
    }
}

fn push_amp_escaped(s: &mut String, t: &str)
    ensures
        final(s)@ == old(s)@ + amp_escaped(t@),
{
    let v = chars_of(t);
    let mut i: usize = 0;
    while i < v.len()
        invariant
            0 <= i <= v.len(),
            v@ == t@,
            s@ == old(s)@ + amp_escaped(v@.subrange(0, i as int)),
        decreases v.len() - i,
    {
        proof {
            assert(v@.subrange(0, i + 1).drop_last() =~= v@.subrange(0, i as int));
        }
        let ghost s0 = s@;
        if v[i] == '&' {
            push_str(s, "&amp;");
        } else {
            push_char(s, v[i]);
        }
        proof {
            assert(s@ =~= old(s)@ + amp_escaped(v@.subrange(0, i + 1)));
        }
        i = i + 1;
    }
    proof {
        assert(v@.subrange(0, v.len() as int) =~= v@);
    }
}

fn push_event(s: &mut String, e: &MdEvent)
    ensures
        final(s)@ == old(s)@ + event_markup(*e),
{
    match e {
        MdEvent::Heading(l) => {
            push_str(s, "<span font_size='");
            let size = if *l == 0 {
                "xx-large"
            } else if *l == 1 {
                "x-large"
            } else if *l == 2 {
                "large"
            } else if *l == 3 {
                "medium"
            } else if *l == 4 {
                "small"
            } else if *l == 5 {
                "x-small"
            } else {
                "xx-small"
            };
            push_str(s, size);
            push_str(s, "'><u>");
            proof {
                assert(s@ =~= old(s)@ + event_markup(*e));
            }
        },
        MdEvent::HeadingEnd => push_str(s, "</u></span>\n\n"),
        MdEvent::Paragraph => push_str(s, "<span>"),
        MdEvent::ParagraphEnd => push_str(s, "</span>\n"),
        MdEvent::Code => push_str(s, "<tt>"),
        MdEvent::CodeEnd => push_str(s, "</tt>"),
        MdEvent::Emphasis => push_str(s, "<i>"),
        MdEvent::EmphasisEnd => push_str(s, "</i>"),
        MdEvent::Strong => push_str(s, "<b>"),
        MdEvent::StrongEnd => push_str(s, "</b>"),
        MdEvent::Item => push_str(s, "\u{b7} "),
        MdEvent::ItemEnd => push_str(s, "\n"),
        MdEvent::SoftBreak => push_str(s, "\n"),
        MdEvent::Link(u, t) => {
            push_str(s, "<a href='");
            push_str(s, u.as_str());
            push_str(s, "' title='");
            push_str(s, t.as_str());
            push_str(s, "'>");
            proof {
                assert(s@ =~= old(s)@ + event_markup(*e));
            }
        },
        MdEvent::LinkEnd => push_str(s, "</a>"),
        MdEvent::Text(t) => push_amp_escaped(s, t.as_str()),
        MdEvent::Other => {
            proof {
                assert(s@ =~= old(s)@ + event_markup(*e));
            }
        },
    }
}

/// Markup of parsed Markdown: the markup of each event in turn, within a
/// `<markup>` element.
pub fn render_events(events: &Vec<MdEvent>) -> (r: String)
    ensures
        r@ == "<markup>"@ + events_markup(events@) + "</markup>"@,
{
    let mut s = String::new();
    push_str(&mut s, "<markup>");
    let mut i: usize = 0;
    while i < events.len()
        invariant
            0 <= i <= events.len(),
            s@ == "<markup>"@ + events_markup(events@.subrange(0, i as int)),
        decreases events.len() - i,
    {
        proof {
            assert(events@.subrange(0, i + 1).drop_last() =~= events@.subrange(0, i as int));
        }
        push_event(&mut s, &events[i]);
        i = i + 1;
    }
    proof {
        assert(events@.subrange(0, events@.len() as int) =~= events@);
    }
    push_str(&mut s, "</markup>");
    s
}

/// Things with a text that reads as Markdown and can be shown as markup.
pub trait Markup {
    /// The markup of the text, given the Markdown events of that text; none
    /// where there is no text.
    fn markup(&self, events: &Vec<MdEvent>) -> Option<String>;
}

impl Markup for crate::note::Note {
    fn markup(&self, events: &Vec<MdEvent>) -> (r: Option<String>)
        ensures
            (*self == crate::note::Note::Empty) ==> r.is_none(),
            (*self != crate::note::Note::Empty) ==> r.is_some() && r->0@ == "<markup>"@
                + events_markup(events@) + "</markup>"@,
    {
        match self {
            crate::note::Note::Empty => None,
            _ => Some(render_events(events)),
        }
    }
}

} // verus!
