//! The content-type declarations of the package and the text of its
//! content-type manifest.

use vstd::prelude::*;
use vstd::string::*;

use crate::relationships::pair_views;
use crate::xml::{declaration_text, escaped, write_escaped, xml_declaration};

verus! {

/// Whether a declaration for `key` is in `t`.
pub open spec fn has_key(t: Seq<(Seq<char>, Seq<char>)>, key: Seq<char>) -> bool {
    exists|i: int| 0 <= i < t.len() && t[i].0 == key
}

/// The declarations after `key` is declared with `mime`: unchanged where
/// `key` was declared before, else with the pair appended.
pub open spec fn declared(
    t: Seq<(Seq<char>, Seq<char>)>,
    key: Seq<char>,
    mime: Seq<char>,
) -> Seq<(Seq<char>, Seq<char>)> {
    if has_key(t, key) {
        t
    } else {
        t.push((key, mime))
    }
}

/// The content-type declarations of the package: one for each key (a file
/// extension or a part's path), in the order of first declaration.
pub struct ContentTypes {
    entries: Vec<(String, String)>,
}

impl View for ContentTypes {
    type V = Seq<(Seq<char>, Seq<char>)>;

    closed spec fn view(&self) -> Seq<(Seq<char>, Seq<char>)> {
        pair_views(self.entries@)
    }
}

impl ContentTypes {
    /// No key is declared twice.
    pub open spec fn wf(&self) -> bool {
        forall|i: int, j: int|
            0 <= i < j < self@.len() ==> #[trigger] self@[i].0 != #[trigger] self@[j].0
    }

    pub fn new() -> (r: ContentTypes)
        ensures
            r.wf(),
            r@ == Seq::<(Seq<char>, Seq<char>)>::empty(),
    {
        let r = ContentTypes { entries: Vec::new() };
        assert(r@ =~= Seq::<(Seq<char>, Seq<char>)>::empty());
        r
    }

    pub fn len(&self) -> (r: usize)
        ensures
            r == self@.len(),
    {
        self.entries.len()
    }

    /// The key and the type of the declaration at `index`.
    pub fn entry(&self, index: usize) -> (r: (&str, &str))
        requires
            index < self@.len(),
        ensures
            r.0@ == self@[index as int].0,
            r.1@ == self@[index as int].1,
    {
        (self.entries[index].0.as_str(), self.entries[index].1.as_str())
    }

    /// Declares `key` with `mime`; a key declared before keeps its first
    /// declaration.
    pub fn declare_content_type(&mut self, key: &str, mime: &str)
        requires
            old(self).wf(),
        ensures
            final(self).wf(),
            final(self)@ == declared(old(self)@, key@, mime@),
    {
        let owned = key.to_owned();
        let mut i: usize = 0;
        while i < self.entries.len()
            invariant
                self@ == old(self)@,
                self.wf(),
                i <= self@.len(),
                owned@ == key@,
                forall|k: int| 0 <= k < i ==> self@[k].0 != key@,
            decreases self@.len() - i,
        {
            if self.entries[i].0 == owned {
                assert(self@[i as int].0 == key@);
                return;
            }
            i = i + 1;
        }
        self.entries.push((owned, mime.to_owned()));
        assert(self@ =~= old(self)@.push((key@, mime@)));
    }
}

/// A key that names a part (it begins with `/`) rather than an extension.
pub open spec fn is_part_name(key: Seq<char>) -> bool {
    key.len() > 0 && key[0] == '/'
}

pub open spec fn type_entry_text(
    open_text: Seq<char>,
    entry: (Seq<char>, Seq<char>),
) -> Seq<char> {
    open_text + escaped(entry.0) + "\" ContentType=\""@ + escaped(entry.1) + "\"/>"@
}

/// The `<Default>` elements of the extension keys of `t` (where `overrides`
/// is false) or the `<Override>` elements of its part names (where it is
/// true), in order.
pub open spec fn type_entries_text(t: Seq<(Seq<char>, Seq<char>)>, overrides: bool) -> Seq<char>
    decreases t.len(),
{
    if t.len() == 0 {
        Seq::empty()
    } else {
        type_entries_text(t.drop_last(), overrides) + if is_part_name(t.last().0) != overrides {
            Seq::empty()
        } else if overrides {
            type_entry_text("<Override PartName=\""@, t.last())
        } else {
            type_entry_text("<Default Extension=\""@, t.last())
        }
    }
}

/// The text of the content-type manifest: the defaults by extension, then
/// the overrides by part name, each in order of declaration.
pub open spec fn types_xml(t: Seq<(Seq<char>, Seq<char>)>) -> Seq<char> {
    declaration_text()
        + "<Types xmlns=\"http://schemas.openxmlformats.org/package/2006/content-types\">"@
        + type_entries_text(t, false) + type_entries_text(t, true) + "</Types>"@
}

fn is_part_name_str(key: &str) -> (r: bool)
    ensures
        r == is_part_name(key@),
{
    key.unicode_len() > 0 && key.get_char(0) == '/'
}

impl ContentTypes {
    fn write_entries(&self, w: &mut String, overrides: bool)
        ensures
            final(w)@ == old(w)@ + type_entries_text(self@, overrides),
    {
        let ghost start = w@;
        let mut i: usize = 0;
        while i < self.entries.len()
            invariant
                i <= self@.len(),
                w@ == start + type_entries_text(self@.take(i as int), overrides),
            decreases self@.len() - i,
        {
            let ghost before = w@;
            let key = self.entries[i].0.as_str();
            let mime = self.entries[i].1.as_str();
            if is_part_name_str(key) == overrides {
                if overrides {
                    w.append("<Override PartName=\"");
                } else {
                    w.append("<Default Extension=\"");
                }
                write_escaped(w, key);
                w.append("\" ContentType=\"");
                write_escaped(w, mime);
                w.append("\"/>");
            }
            proof {
                let t = self@.take(i + 1);
                assert(t.drop_last() =~= self@.take(i as int));
                assert(t.last() == self@[i as int]);
                if is_part_name(key@) == overrides {
                    if overrides {
                        assert(w@ =~= before + type_entry_text(
                            "<Override PartName=\""@,
                            self@[i as int],
                        ));
                    } else {
                        assert(w@ =~= before + type_entry_text(
                            "<Default Extension=\""@,
                            self@[i as int],
                        ));
                    }
                }
                assert(w@ =~= start + type_entries_text(t, overrides));
            }
            i = i + 1;
        }
        assert(self@.take(i as int) =~= self@);
    }

    /// The content-type manifest of the package.
    pub fn assemble_xml_file(&self) -> (r: String)
        ensures
            r@ == types_xml(self@),
    {
        let mut w = String::new();
        xml_declaration(&mut w);
        w.append("<Types xmlns=\"http://schemas.openxmlformats.org/package/2006/content-types\">");
        self.write_entries(&mut w, false);
        self.write_entries(&mut w, true);
        w.append("</Types>");
        assert(w@ =~= types_xml(self@));
        w
    }
}

} // verus!
