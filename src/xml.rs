//! Writing XML tags into a text buffer, with the exact text of each tag.
//! The tag writers put attribute values down as they are given, for values
//! that hold no character to escape; `write_escaped` is for any other text.

use vstd::prelude::*;
use vstd::std_specs::iter::IteratorSpec;
use vstd::string::*;

verus! {

/// The decimal digits, indexed by their value.
pub open spec fn digit_char(d: nat) -> char {
    seq!['0', '1', '2', '3', '4', '5', '6', '7', '8', '9'][d as int]
}

/// The decimal text of a natural number, without leading zeros.
pub open spec fn decimal(n: nat) -> Seq<char>
    decreases n,
{
    if n < 10 {
        seq![digit_char(n)]
    } else {
        decimal(n / 10) + seq![digit_char(n % 10)]
    }
}

/// The XML declaration that opens every part, with its line break.
pub open spec fn declaration_text() -> Seq<char> {
    "<?xml version=\"1.0\" encoding=\"UTF-8\" standalone=\"yes\"?>\n"@
}

/// The views of a list of attribute pairs.
pub open spec fn attrs_view(attrs: Seq<(&str, &str)>) -> Seq<(Seq<char>, Seq<char>)> {
    attrs.map_values(|a: (&str, &str)| (a.0@, a.1@))
}

/// One attribute as it stands in a tag: a space, the key, `="`, the value, `"`.
pub open spec fn attr_text(a: (Seq<char>, Seq<char>)) -> Seq<char> {
    " "@ + a.0 + "=\""@ + a.1 + "\""@
}

/// The attributes of a tag, in the order given.
pub open spec fn attrs_text(attrs: Seq<(Seq<char>, Seq<char>)>) -> Seq<char>
    decreases attrs.len(),
{
    if attrs.len() == 0 {
        Seq::empty()
    } else {
        attrs_text(attrs.drop_last()) + attr_text(attrs.last())
    }
}

pub open spec fn start_tag_text(tag: Seq<char>, attrs: Seq<(Seq<char>, Seq<char>)>) -> Seq<char> {
    "<"@ + tag + attrs_text(attrs) + ">"@
}

pub open spec fn empty_tag_text(tag: Seq<char>, attrs: Seq<(Seq<char>, Seq<char>)>) -> Seq<char> {
    "<"@ + tag + attrs_text(attrs) + "/>"@
}

pub open spec fn start_tag_only_text(tag: Seq<char>) -> Seq<char> {
    "<"@ + tag + ">"@
}

pub open spec fn end_tag_text(tag: Seq<char>) -> Seq<char> {
    "</"@ + tag + ">"@
}

/// The text of one decimal digit.
fn digit_str(d: u64) -> (r: &'static str)
    requires
        d < 10,
    ensures
        r@ == seq![digit_char(d as nat)],
{
    proof {
        reveal_strlit("0");
        reveal_strlit("1");
        reveal_strlit("2");
        reveal_strlit("3");
        reveal_strlit("4");
        reveal_strlit("5");
        reveal_strlit("6");
        reveal_strlit("7");
        reveal_strlit("8");
        reveal_strlit("9");
    }
    let r = if d == 0 {
        "0"
    } else if d == 1 {
        "1"
    } else if d == 2 {
        "2"
    } else if d == 3 {
        "3"
    } else if d == 4 {
        "4"
    } else if d == 5 {
        "5"
    } else if d == 6 {
        "6"
    } else if d == 7 {
        "7"
    } else if d == 8 {
        "8"
    } else {
        "9"
    };
    assert(r@ =~= seq![digit_char(d as nat)]);
    r
}

/// Appends the decimal text of `n`.
pub fn write_decimal(w: &mut String, n: u64)
    ensures
        final(w)@ == old(w)@ + decimal(n as nat),
    decreases n,
{
    if n >= 10 {
        write_decimal(w, n / 10);
    }
    w.append(digit_str(n % 10));
    assert(final(w)@ =~= old(w)@ + decimal(n as nat));
}

/// The decimal text of `n` as a new string.
pub fn decimal_string(n: u64) -> (r: String)
    ensures
        r@ == decimal(n as nat),
{
    let mut s = String::new();
    write_decimal(&mut s, n);
    assert(s@ =~= decimal(n as nat));
    s
}

/// Appends the XML declaration.
pub fn xml_declaration(w: &mut String)
    ensures
        final(w)@ == old(w)@ + declaration_text(),
{
    w.append("<?xml version=\"1.0\" encoding=\"UTF-8\" standalone=\"yes\"?>\n");
}

/// Appends the attributes in order.
fn write_attributes(w: &mut String, attrs: &Vec<(&str, &str)>)
    ensures
        final(w)@ == old(w)@ + attrs_text(attrs_view(attrs@)),
{
    let mut i: usize = 0;
    while i < attrs.len()
        invariant
            i <= attrs@.len(),
            w@ == old(w)@ + attrs_text(attrs_view(attrs@.take(i as int))),
        decreases attrs@.len() - i,
    {
        let (k, v) = attrs[i];
        w.append(" ");
        w.append(k);
        w.append("=\"");
        w.append(v);
        w.append("\"");
        proof {
            let next = attrs_view(attrs@.take(i + 1));
            assert(next.drop_last() =~= attrs_view(attrs@.take(i as int)));
            assert(next.last() == (k@, v@));
        }
        i = i + 1;
        assert(w@ =~= old(w)@ + attrs_text(attrs_view(attrs@.take(i as int))));
    }
    assert(attrs@.take(i as int) =~= attrs@);
}

/// Appends a start tag with its attributes.
pub fn xml_start_tag(w: &mut String, tag: &str, attrs: &Vec<(&str, &str)>)
    ensures
        final(w)@ == old(w)@ + start_tag_text(tag@, attrs_view(attrs@)),
{
    w.append("<");
    w.append(tag);
    write_attributes(w, attrs);
    w.append(">");
    assert(final(w)@ =~= old(w)@ + start_tag_text(tag@, attrs_view(attrs@)));
}

/// Appends an empty tag with its attributes.
pub fn xml_empty_tag(w: &mut String, tag: &str, attrs: &Vec<(&str, &str)>)
    ensures
        final(w)@ == old(w)@ + empty_tag_text(tag@, attrs_view(attrs@)),
{
    w.append("<");
    w.append(tag);
    write_attributes(w, attrs);
    w.append("/>");
    assert(final(w)@ =~= old(w)@ + empty_tag_text(tag@, attrs_view(attrs@)));
}

/// Appends a start tag without attributes.
pub fn xml_start_tag_only(w: &mut String, tag: &str)
    ensures
        final(w)@ == old(w)@ + start_tag_only_text(tag@),
{
    w.append("<");
    w.append(tag);
    w.append(">");
    assert(final(w)@ =~= old(w)@ + start_tag_only_text(tag@));
}

/// Appends an end tag.
pub fn xml_end_tag(w: &mut String, tag: &str)
    ensures
        final(w)@ == old(w)@ + end_tag_text(tag@),
{
    w.append("</");
    w.append(tag);
    w.append(">");
    assert(final(w)@ =~= old(w)@ + end_tag_text(tag@));
}

/// The characters that an attribute value cannot hold as they are.
pub open spec fn needs_escape(c: char) -> bool {
    c == '&' || c == '<' || c == '>' || c == '"' || c == '\n'
}

/// The text that stands for one character of an attribute value.
pub open spec fn escape_char(c: char) -> Seq<char> {
    if c == '&' {
        "&amp;"@
    } else if c == '<' {
        "&lt;"@
    } else if c == '>' {
        "&gt;"@
    } else if c == '"' {
        "&quot;"@
    } else if c == '\n' {
        "&#xA;"@
    } else {
        seq![c]
    }
}

/// An attribute value with each character escaped.
pub open spec fn escaped(s: Seq<char>) -> Seq<char>
    decreases s.len(),
{
    if s.len() == 0 {
        Seq::empty()
    } else {
        escaped(s.drop_last()) + escape_char(s.last())
    }
}

fn escape_str(c: char) -> (r: &'static str)
    requires
        needs_escape(c),
    ensures
        r@ == escape_char(c),
{
    if c == '&' {
        "&amp;"
    } else if c == '<' {
        "&lt;"
    } else if c == '>' {
        "&gt;"
    } else if c == '"' {
        "&quot;"
    } else {
        "&#xA;"
    }
}

proof fn lemma_escaped_plain(s: Seq<char>)
    requires
        forall|k: int| 0 <= k < s.len() ==> !needs_escape(#[trigger] s[k]),
    ensures
        escaped(s) == s,
    decreases s.len(),
{
    if s.len() > 0 {
        lemma_escaped_plain(s.drop_last());
        assert(!needs_escape(s[s.len() - 1]));
        assert(s.drop_last().push(s.last()) =~= s);
    }
}

proof fn lemma_escaped_append(a: Seq<char>, b: Seq<char>)
    ensures
        escaped(a + b) == escaped(a) + escaped(b),
    decreases b.len(),
{
    if b.len() == 0 {
        assert(a + b =~= a);
        assert(escaped(a) + escaped(b) =~= escaped(a));
    } else {
        lemma_escaped_append(a, b.drop_last());
        assert((a + b).drop_last() =~= a + b.drop_last());
        assert((a + b).last() == b.last());
        assert(escaped(a + b) =~= escaped(a) + escaped(b));
    }
}

/// Appends `s` with each character escaped.
pub fn write_escaped(w: &mut String, s: &str)
    ensures
        final(w)@ == old(w)@ + escaped(s@),
{
    broadcast use {axiom_spec_iter, next_postcondition};

    let len = s.unicode_len();
    let mut it = s.chars();
    let mut i: usize = 0;
    let mut run: usize = 0;
    while i < len
        invariant
            len == s@.len(),
            it.remaining() == s@.skip(i as int),
            run <= i <= len,
            w@ == old(w)@ + escaped(s@.take(run as int)),
            forall|k: int| run <= k < i ==> !needs_escape(#[trigger] s@[k]),
        decreases len - i,
    {
        let next = it.next();
        assert(s@.skip(i as int)[0] == s@[i as int]);
        let c = next.unwrap();
        if c == '&' || c == '<' || c == '>' || c == '"' || c == '\n' {
            let plain = s.substring_char(run, i);
            w.append(plain);
            w.append(escape_str(c));
            proof {
                lemma_escaped_plain(plain@);
                let t = s@.take(i + 1);
                lemma_escaped_append(s@.take(run as int), plain@);
                assert(s@.take(run as int) + plain@ =~= s@.take(i as int));
                assert(t.drop_last() =~= s@.take(i as int));
            }
            run = i + 1;
        }
        assert(it.remaining() =~= s@.skip(i + 1));
        i = i + 1;
    }
    let rest = s.substring_char(run, len);
    w.append(rest);
    proof {
        lemma_escaped_plain(rest@);
        lemma_escaped_append(s@.take(run as int), rest@);
        assert(s@.take(run as int) + rest@ =~= s@);
    }
}

} // verus!
