//! The relationships of one scope of the package and the text of its
//! relationship part.

use vstd::prelude::*;
use vstd::string::*;

use crate::xml::{decimal, declaration_text, escaped, write_decimal, write_escaped, xml_declaration};

verus! {

pub open spec fn pair_views(v: Seq<(String, String)>) -> Seq<(Seq<char>, Seq<char>)> {
    v.map_values(|p: (String, String)| (p.0@, p.1@))
}

/// The relationships of one scope (the package root, the workbook, or one
/// worksheet), in the order they were added. The identifier of an entry is
/// its position plus one, so each scope numbers its own from 1.
pub struct Relationships {
    items: Vec<(String, String)>,
}

impl View for Relationships {
    /// Each relationship as its target part's path and its type.
    type V = Seq<(Seq<char>, Seq<char>)>;

    closed spec fn view(&self) -> Seq<(Seq<char>, Seq<char>)> {
        pair_views(self.items@)
    }
}

impl Relationships {
    pub fn new() -> (r: Relationships)
        ensures
            r@ == Seq::<(Seq<char>, Seq<char>)>::empty(),
    {
        let r = Relationships { items: Vec::new() };
        assert(r@ =~= Seq::<(Seq<char>, Seq<char>)>::empty());
        r
    }

    pub fn len(&self) -> (r: usize)
        ensures
            r == self@.len(),
    {
        self.items.len()
    }

    /// The target part of the relationship with identifier `id`.
    pub fn target(&self, id: usize) -> (r: &str)
        requires
            1 <= id <= self@.len(),
        ensures
            r@ == self@[id - 1].0,
    {
        self.items[id - 1].0.as_str()
    }

    /// The type of the relationship with identifier `id`.
    pub fn rel_type(&self, id: usize) -> (r: &str)
        requires
            1 <= id <= self@.len(),
        ensures
            r@ == self@[id - 1].1,
    {
        self.items[id - 1].1.as_str()
    }

    /// Adds a relationship and returns its identifier. An equal relationship
    /// added before is not reused: each call gets the next identifier.
    pub fn add_relationship(&mut self, target: &str, rel_type: &str) -> (id: usize)
        ensures
            final(self)@ == old(self)@.push((target@, rel_type@)),
            id == final(self)@.len(),
    {
        self.items.push((target.to_owned(), rel_type.to_owned()));
        assert(self@ =~= old(self)@.push((target@, rel_type@)));
        self.items.len()
    }
}

/// Whether `t` begins with `p`.
pub open spec fn is_prefix(p: Seq<char>, t: Seq<char>) -> bool {
    p.len() <= t.len() && t.take(p.len() as int) == p
}

/// `t` up to and with its last `/`, or nothing where it holds none.
pub open spec fn up_to_last_slash(t: Seq<char>) -> Seq<char>
    decreases t.len(),
{
    if t.len() == 0 || t.last() == '/' {
        t
    } else {
        up_to_last_slash(t.drop_last())
    }
}

/// The folder that holds the folder `dir` (each folder written with its
/// trailing `/`, the package root as nothing).
pub open spec fn parent_dir(dir: Seq<char>) -> Seq<char> {
    if dir.len() == 0 {
        dir
    } else {
        up_to_last_slash(dir.drop_last())
    }
}

/// How a part in folder `dir` names the part at path `target`: relative to
/// `dir` where `target` lies under it, through `../` where it lies under the
/// folder above, else by its full name from the root.
pub open spec fn relative_target(dir: Seq<char>, target: Seq<char>) -> Seq<char> {
    if is_prefix(dir, target) {
        target.skip(dir.len() as int)
    } else if dir.len() > 0 && is_prefix(parent_dir(dir), target) {
        "../"@ + target.skip(parent_dir(dir).len() as int)
    } else {
        "/"@ + target
    }
}

/// The length of `parent_dir(dir@)`.
fn parent_dir_len(dir: &str) -> (r: usize)
    ensures
        r <= dir@.len(),
        dir@.take(r as int) == parent_dir(dir@),
{
    let n = dir.unicode_len();
    if n == 0 {
        assert(dir@.take(0) =~= dir@);
        return 0;
    }
    let mut k: usize = n - 1;
    while k > 0 && dir.get_char(k - 1) != '/'
        invariant
            n == dir@.len(),
            k < n,
            up_to_last_slash(dir@.take(k as int)) == parent_dir(dir@),
        decreases k,
    {
        assert(dir@.take(k as int).drop_last() =~= dir@.take(k - 1));
        k = k - 1;
    }
    if k > 0 {
        assert(dir@.take(k as int).last() == '/');
    } else {
        assert(dir@.take(0).len() == 0);
    }
    k
}

/// Whether `t` begins with `p`.
fn starts_with(t: &str, p: &str) -> (r: bool)
    ensures
        r == is_prefix(p@, t@),
{
    let plen = p.unicode_len();
    let tlen = t.unicode_len();
    if plen > tlen {
        return false;
    }
    let head = t.substring_char(0, plen).to_owned();
    let p_owned = p.to_owned();
    head == p_owned
}

/// Appends `relative_target(dir@, target@)`, escaped.
fn write_relative_target(w: &mut String, dir: &str, target: &str)
    ensures
        final(w)@ == old(w)@ + escaped(relative_target(dir@, target@)),
{
    let tlen = target.unicode_len();
    if starts_with(target, dir) {
        let dlen = dir.unicode_len();
        let rest = target.substring_char(dlen, tlen);
        assert(rest@ =~= target@.skip(dir@.len() as int));
        write_escaped(w, rest);
        return;
    }
    let dlen = dir.unicode_len();
    if dlen > 0 {
        let plen = parent_dir_len(dir);
        let parent = dir.substring_char(0, plen);
        assert(parent@ =~= dir@.take(plen as int));
        if starts_with(target, parent) {
            let rest = target.substring_char(plen, tlen);
            assert(rest@ =~= target@.skip(plen as int));
            let mut up = "../".to_owned();
            up.append(rest);
            write_escaped(w, up.as_str());
            return;
        }
    }
    let mut full = "/".to_owned();
    full.append(target);
    write_escaped(w, full.as_str());
}

/// One relationship as it stands in a relationship part.
pub open spec fn rel_text(id: nat, dir: Seq<char>, rel: (Seq<char>, Seq<char>)) -> Seq<char> {
    "<Relationship Id=\"rId"@ + decimal(id) + "\" Type=\""@ + escaped(rel.1) + "\" Target=\""@
        + escaped(relative_target(dir, rel.0)) + "\"/>"@
}

/// The relationships of `rels` in order, numbered from 1.
pub open spec fn rels_text(dir: Seq<char>, rels: Seq<(Seq<char>, Seq<char>)>) -> Seq<char>
    decreases rels.len(),
{
    if rels.len() == 0 {
        Seq::empty()
    } else {
        rels_text(dir, rels.drop_last()) + rel_text(rels.len(), dir, rels.last())
    }
}

/// The text of the relationship part of a scope whose source part lies in
/// folder `dir`.
pub open spec fn rels_xml(dir: Seq<char>, rels: Seq<(Seq<char>, Seq<char>)>) -> Seq<char> {
    declaration_text()
        + "<Relationships xmlns=\"http://schemas.openxmlformats.org/package/2006/relationships\">"@
        + rels_text(dir, rels) + "</Relationships>"@
}

impl Relationships {
    /// The relationship part of this scope, where its source part lies in
    /// folder `dir` (`""` for the package root, `"xl/"` for the workbook).
    pub fn assemble_xml_file(&self, dir: &str) -> (r: String)
        ensures
            r@ == rels_xml(dir@, self@),
    {
        let mut w = String::new();
        xml_declaration(&mut w);
        w.append("<Relationships xmlns=\"http://schemas.openxmlformats.org/package/2006/relationships\">");
        let ghost start = w@;
        let mut i: usize = 0;
        while i < self.items.len()
            invariant
                i <= self@.len(),
                w@ == start + rels_text(dir@, self@.take(i as int)),
            decreases self@.len() - i,
        {
            let ghost before = w@;
            w.append("<Relationship Id=\"rId");
            write_decimal(&mut w, (i + 1) as u64);
            w.append("\" Type=\"");
            write_escaped(&mut w, self.items[i].1.as_str());
            w.append("\" Target=\"");
            write_relative_target(&mut w, dir, self.items[i].0.as_str());
            w.append("\"/>");
            proof {
                let t = self@.take(i + 1);
                assert(t.drop_last() =~= self@.take(i as int));
                assert(t.last() == self@[i as int]);
                assert(w@ =~= before + rel_text((i + 1) as nat, dir@, self@[i as int]));
            }
            i = i + 1;
        }
        w.append("</Relationships>");
        assert(self@.take(i as int) =~= self@);
        assert(w@ =~= rels_xml(dir@, self@));
        w
    }
}

} // verus!
