//! The package: the list of its parts in the order they are written, the
//! standard relationships between them, the validation that relationships
//! point at parts that are there, and the assembly of the entries.

use vstd::prelude::*;
use vstd::string::*;

use crate::content_types::{types_xml, ContentTypes};
use crate::relationships::{pair_views, rels_xml, Relationships};
use crate::strings::{views, SharedStringTable};
use crate::xml::{decimal, write_decimal};

verus! {


/// Every relationship of `rels` targets a part of `parts`.
pub open spec fn targets_present(
    parts: Seq<Seq<char>>,
    rels: Seq<(Seq<char>, Seq<char>)>,
) -> bool {
    forall|i: int| 0 <= i < rels.len() ==> parts.contains(#[trigger] rels[i].0)
}

/// Validates that every relationship of `rels` targets a part of `parts`. A
/// target that is missing is a defect of the part that asked for it: the
/// error is the identifier of the first such relationship.
pub fn validate_targets(parts: &Vec<String>, rels: &Relationships) -> (r: Result<(), usize>)
    ensures
        r is Ok <==> targets_present(views(parts@), rels@),
        r matches Err(id) ==> {
            &&& 1 <= id <= rels@.len()
            &&& !views(parts@).contains(rels@[id - 1].0)
            &&& targets_present(views(parts@), rels@.take(id - 1))
        },
{
    let mut i: usize = 0;
    while i < rels.len()
        invariant
            i <= rels@.len(),
            targets_present(views(parts@), rels@.take(i as int)),
        decreases rels@.len() - i,
    {
        let target = rels.target(i + 1).to_owned();
        let mut j: usize = 0;
        let mut found = false;
        while j < parts.len() && !found
            invariant
                j <= parts@.len(),
                target@ == rels@[i as int].0,
                found ==> views(parts@).contains(target@),
                !found ==> forall|k: int| 0 <= k < j ==> views(parts@)[k] != target@,
            decreases parts@.len() - j,
        {
            if parts[j] == target {
                assert(views(parts@)[j as int] == target@);
                found = true;
            }
            j = j + 1;
        }
        if !found {
            assert(!views(parts@).contains(target@));
            assert(rels@.take(i as int) =~= rels@.take(i + 1 - 1));
            return Err(i + 1);
        }
        proof {
            assert forall|k: int| 0 <= k < i + 1 implies views(parts@).contains(
                #[trigger] rels@.take(i + 1)[k].0,
            ) by {
                if k < i {
                    assert(rels@.take(i + 1)[k] == rels@.take(i as int)[k]);
                }
            }
        }
        i = i + 1;
    }
    assert(rels@.take(i as int) =~= rels@);
    Ok(())
}

pub const CONTENT_TYPES_PATH: &'static str = "[Content_Types].xml";

pub const ROOT_RELS_PATH: &'static str = "_rels/.rels";

pub const APP_PATH: &'static str = "docProps/app.xml";

pub const CORE_PATH: &'static str = "docProps/core.xml";

pub const WORKBOOK_PATH: &'static str = "xl/workbook.xml";

pub const WORKBOOK_RELS_PATH: &'static str = "xl/_rels/workbook.xml.rels";

pub const THEME_PATH: &'static str = "xl/theme/theme1.xml";

pub const STYLES_PATH: &'static str = "xl/styles.xml";

pub const SHARED_STRINGS_PATH: &'static str = "xl/sharedStrings.xml";

pub const METADATA_PATH: &'static str = "xl/metadata.xml";

pub const OFFICE_DOCUMENT_TYPE: &'static str = "http://schemas.openxmlformats.org/officeDocument/2006/relationships/officeDocument";

pub const CORE_PROPERTIES_TYPE: &'static str = "http://schemas.openxmlformats.org/package/2006/relationships/metadata/core-properties";

pub const EXTENDED_PROPERTIES_TYPE: &'static str = "http://schemas.openxmlformats.org/officeDocument/2006/relationships/extended-properties";

pub const WORKSHEET_TYPE: &'static str = "http://schemas.openxmlformats.org/officeDocument/2006/relationships/worksheet";

pub const THEME_TYPE: &'static str = "http://schemas.openxmlformats.org/officeDocument/2006/relationships/theme";

pub const STYLES_TYPE: &'static str = "http://schemas.openxmlformats.org/officeDocument/2006/relationships/styles";

pub const SHARED_STRINGS_TYPE: &'static str = "http://schemas.openxmlformats.org/officeDocument/2006/relationships/sharedStrings";

pub const METADATA_TYPE: &'static str = "http://schemas.openxmlformats.org/officeDocument/2006/relationships/sheetMetadata";

pub open spec fn opt_seq<A>(c: bool, a: Seq<A>) -> Seq<A> {
    if c {
        a
    } else {
        Seq::empty()
    }
}

/// The path of the `k`-th worksheet, counted from 1.
pub open spec fn sheet_path(k: nat) -> Seq<char> {
    "xl/worksheets/sheet"@ + decimal(k) + ".xml"@
}

pub open spec fn sheet_paths(n: nat) -> Seq<Seq<char>> {
    Seq::new(n, |i: int| sheet_path((i + 1) as nat))
}

/// The parts of a package with `n` worksheets, in the order they are
/// written. The shared string part is there only where some string was
/// interned, the metadata part only where some cell needs metadata.
pub open spec fn part_list(n: nat, has_strings: bool, has_metadata: bool) -> Seq<Seq<char>> {
    seq![
        CONTENT_TYPES_PATH@,
        ROOT_RELS_PATH@,
        APP_PATH@,
        CORE_PATH@,
        WORKBOOK_PATH@,
        WORKBOOK_RELS_PATH@,
    ] + sheet_paths(n) + seq![THEME_PATH@, STYLES_PATH@] + opt_seq(
        has_strings,
        seq![SHARED_STRINGS_PATH@],
    ) + opt_seq(has_metadata, seq![METADATA_PATH@])
}

/// The relationships of the package root.
pub open spec fn root_rels() -> Seq<(Seq<char>, Seq<char>)> {
    seq![
        (WORKBOOK_PATH@, OFFICE_DOCUMENT_TYPE@),
        (CORE_PATH@, CORE_PROPERTIES_TYPE@),
        (APP_PATH@, EXTENDED_PROPERTIES_TYPE@),
    ]
}

/// The relationships of the workbook: its worksheets, the theme, the
/// styles, then the shared strings and the metadata where they are there.
pub open spec fn workbook_rels(n: nat, has_strings: bool, has_metadata: bool) -> Seq<
    (Seq<char>, Seq<char>),
> {
    Seq::new(n, |i: int| (sheet_path((i + 1) as nat), WORKSHEET_TYPE@)) + seq![
        (THEME_PATH@, THEME_TYPE@),
        (STYLES_PATH@, STYLES_TYPE@),
    ] + opt_seq(has_strings, seq![(SHARED_STRINGS_PATH@, SHARED_STRINGS_TYPE@)]) + opt_seq(
        has_metadata,
        seq![(METADATA_PATH@, METADATA_TYPE@)],
    )
}

/// The path of the `k`-th worksheet.
pub fn sheet_path_string(k: u32) -> (r: String)
    ensures
        r@ == sheet_path(k as nat),
{
    let mut r = "xl/worksheets/sheet".to_owned();
    write_decimal(&mut r, k as u64);
    r.append(".xml");
    r
}

fn push_path(v: &mut Vec<String>, path: &str)
    ensures
        views(final(v)@) == views(old(v)@).push(path@),
{
    v.push(path.to_owned());
    assert(views(v@) =~= views(old(v)@).push(path@));
}

/// The paths of the parts of a package with `num_sheets` worksheets, in
/// the order they are written.
pub fn part_paths(num_sheets: u32, has_strings: bool, has_metadata: bool) -> (r: Vec<String>)
    ensures
        views(r@) == part_list(num_sheets as nat, has_strings, has_metadata),
{
    let mut r: Vec<String> = Vec::new();
    push_path(&mut r, CONTENT_TYPES_PATH);
    push_path(&mut r, ROOT_RELS_PATH);
    push_path(&mut r, APP_PATH);
    push_path(&mut r, CORE_PATH);
    push_path(&mut r, WORKBOOK_PATH);
    push_path(&mut r, WORKBOOK_RELS_PATH);
    let ghost head = views(r@);
    let mut k: u32 = 0;
    while k < num_sheets
        invariant
            k <= num_sheets,
            views(r@) == head + sheet_paths(k as nat),
        decreases num_sheets - k,
    {
        let path = sheet_path_string(k + 1);
        let ghost before = views(r@);
        r.push(path);
        assert(views(r@) =~= before.push(sheet_path((k + 1) as nat)));
        k = k + 1;
        assert(views(r@) =~= head + sheet_paths(k as nat));
    }
    push_path(&mut r, THEME_PATH);
    push_path(&mut r, STYLES_PATH);
    if has_strings {
        push_path(&mut r, SHARED_STRINGS_PATH);
    }
    if has_metadata {
        push_path(&mut r, METADATA_PATH);
    }
    assert(views(r@) =~= part_list(num_sheets as nat, has_strings, has_metadata));
    r
}

/// The relationships of the package root.
pub fn root_relationships() -> (r: Relationships)
    ensures
        r@ == root_rels(),
{
    let mut r = Relationships::new();
    r.add_relationship(WORKBOOK_PATH, OFFICE_DOCUMENT_TYPE);
    r.add_relationship(CORE_PATH, CORE_PROPERTIES_TYPE);
    r.add_relationship(APP_PATH, EXTENDED_PROPERTIES_TYPE);
    assert(r@ =~= root_rels());
    r
}

/// The relationships of the workbook of a package with `num_sheets`
/// worksheets.
pub fn workbook_relationships(num_sheets: u32, has_strings: bool, has_metadata: bool) -> (r:
    Relationships)
    ensures
        r@ == workbook_rels(num_sheets as nat, has_strings, has_metadata),
{
    let mut r = Relationships::new();
    let mut k: u32 = 0;
    while k < num_sheets
        invariant
            k <= num_sheets,
            r@ == Seq::new(k as nat, |i: int| (sheet_path((i + 1) as nat), WORKSHEET_TYPE@)),
        decreases num_sheets - k,
    {
        let path = sheet_path_string(k + 1);
        r.add_relationship(path.as_str(), WORKSHEET_TYPE);
        k = k + 1;
        assert(r@ =~= Seq::new(k as nat, |i: int| (sheet_path((i + 1) as nat), WORKSHEET_TYPE@)));
    }
    r.add_relationship(THEME_PATH, THEME_TYPE);
    r.add_relationship(STYLES_PATH, STYLES_TYPE);
    if has_strings {
        r.add_relationship(SHARED_STRINGS_PATH, SHARED_STRINGS_TYPE);
    }
    if has_metadata {
        r.add_relationship(METADATA_PATH, METADATA_TYPE);
    }
    assert(r@ =~= workbook_rels(num_sheets as nat, has_strings, has_metadata));
    r
}

/// The paths of the parts of a package with `num_sheets` worksheets whose
/// cells interned the strings of `strings`.
pub fn package_parts(num_sheets: u32, strings: &SharedStringTable, has_metadata: bool) -> (r:
    Vec<String>)
    ensures
        views(r@) == part_list(num_sheets as nat, strings@.len() > 0, has_metadata),
{
    part_paths(num_sheets, !strings.is_empty(), has_metadata)
}

/// Whether some relationship of `rels` targets `path`.
pub open spec fn targeted(rels: Seq<(Seq<char>, Seq<char>)>, path: Seq<char>) -> bool {
    exists|i: int| 0 <= i < rels.len() && rels[i].0 == path
}

proof fn lemma_part_list_index(n: nat, has_strings: bool, has_metadata: bool)
    ensures
        ({
            let l = part_list(n, has_strings, has_metadata);
            let e = if has_strings { 1int } else { 0int };
            &&& l.len() == 8 + n as int + e + (if has_metadata { 1int } else { 0int })
            &&& l[0] == CONTENT_TYPES_PATH@
            &&& l[1] == ROOT_RELS_PATH@
            &&& l[2] == APP_PATH@
            &&& l[3] == CORE_PATH@
            &&& l[4] == WORKBOOK_PATH@
            &&& l[5] == WORKBOOK_RELS_PATH@
            &&& (forall|i: int| 0 <= i < n ==> l[6 + i] == #[trigger] sheet_path((i + 1) as nat))
            &&& l[6 + n as int] == THEME_PATH@
            &&& l[7 + n as int] == STYLES_PATH@
            &&& has_strings ==> l[8 + n as int] == SHARED_STRINGS_PATH@
            &&& has_metadata ==> l[8 + n as int + e] == METADATA_PATH@
        }),
{
    let l = part_list(n, has_strings, has_metadata);
    let e = if has_strings { 1int } else { 0int };
    let a = seq![
        CONTENT_TYPES_PATH@,
        ROOT_RELS_PATH@,
        APP_PATH@,
        CORE_PATH@,
        WORKBOOK_PATH@,
        WORKBOOK_RELS_PATH@,
    ];
    let b = a + sheet_paths(n);
    let c = b + seq![THEME_PATH@, STYLES_PATH@];
    let d = c + opt_seq(has_strings, seq![SHARED_STRINGS_PATH@]);
    assert(l == d + opt_seq(has_metadata, seq![METADATA_PATH@]));
    assert forall|i: int| 0 <= i < n implies l[6 + i] == #[trigger] sheet_path((i + 1) as nat) by {
        assert(b[6 + i] == sheet_paths(n)[i]);
        assert(c[6 + i] == b[6 + i]);
        assert(d[6 + i] == c[6 + i]);
    }
    assert(d[6 + n as int] == c[6 + n as int]);
    assert(d[7 + n as int] == c[7 + n as int]);
    if has_strings {
        assert(d[8 + n as int] == SHARED_STRINGS_PATH@);
    }
    if has_metadata {
        assert(l[d.len() as int] == METADATA_PATH@);
    }
}

proof fn lemma_workbook_rels_index(n: nat, has_strings: bool, has_metadata: bool)
    ensures
        ({
            let w = workbook_rels(n, has_strings, has_metadata);
            let e = if has_strings { 1int } else { 0int };
            &&& w.len() == 2 + n as int + e + (if has_metadata { 1int } else { 0int })
            &&& (forall|i: int| 0 <= i < n ==> #[trigger] w[i].0 == sheet_path((i + 1) as nat))
            &&& w[n as int].0 == THEME_PATH@
            &&& w[n as int + 1].0 == STYLES_PATH@
            &&& has_strings ==> w[n as int + 2].0 == SHARED_STRINGS_PATH@
            &&& has_metadata ==> w[n as int + 2 + e].0 == METADATA_PATH@
        }),
{
    let w = workbook_rels(n, has_strings, has_metadata);
    let a = Seq::new(n, |i: int| (sheet_path((i + 1) as nat), WORKSHEET_TYPE@));
    let c = a + seq![(THEME_PATH@, THEME_TYPE@), (STYLES_PATH@, STYLES_TYPE@)];
    let d = c + opt_seq(has_strings, seq![(SHARED_STRINGS_PATH@, SHARED_STRINGS_TYPE@)]);
    assert(w == d + opt_seq(has_metadata, seq![(METADATA_PATH@, METADATA_TYPE@)]));
    assert forall|i: int| 0 <= i < n implies w[i].0 == sheet_path((i + 1) as nat) by {
        assert(c[i] == a[i]);
        assert(d[i] == c[i]);
    }
    assert(d[n as int] == c[n as int]);
    assert(d[n as int + 1] == c[n as int + 1]);
    if has_metadata {
        assert(w[d.len() as int].0 == METADATA_PATH@);
    }
}

/// Every relationship of the package root and of the workbook targets a
/// part of the package, the root's first relationship targets the workbook,
/// and every part but the content-type manifest and the two relationship
/// parts is the target of a relationship of the root or of the workbook, so
/// that each is reached from the root.
pub proof fn lemma_package_closure(n: nat, has_strings: bool, has_metadata: bool)
    ensures
        targets_present(part_list(n, has_strings, has_metadata), root_rels()),
        targets_present(
            part_list(n, has_strings, has_metadata),
            workbook_rels(n, has_strings, has_metadata),
        ),
        root_rels()[0].0 == WORKBOOK_PATH@,
        forall|p: Seq<char>|
            part_list(n, has_strings, has_metadata).contains(p) && p != CONTENT_TYPES_PATH@ && p
                != ROOT_RELS_PATH@ && p != WORKBOOK_RELS_PATH@ ==> targeted(root_rels(), p)
                || targeted(workbook_rels(n, has_strings, has_metadata), p),
{
    let l = part_list(n, has_strings, has_metadata);
    let w = workbook_rels(n, has_strings, has_metadata);
    let r = root_rels();
    let e = if has_strings { 1int } else { 0int };
    lemma_part_list_index(n, has_strings, has_metadata);
    lemma_workbook_rels_index(n, has_strings, has_metadata);
    assert(l[4] == r[0].0);
    assert(l[3] == r[1].0);
    assert(l[2] == r[2].0);
    assert forall|i: int| 0 <= i < w.len() implies l.contains(#[trigger] w[i].0) by {
        if i < n {
            assert(l[6 + i] == w[i].0);
        } else if i == n as int {
            assert(l[6 + n as int] == w[i].0);
        } else if i == n as int + 1 {
            assert(l[7 + n as int] == w[i].0);
        } else if has_strings && i == n as int + 2 {
            assert(l[8 + n as int] == w[i].0);
        } else {
            assert(l[8 + n as int + e] == w[i].0);
        }
    }
    assert forall|p: Seq<char>|
        l.contains(p) && p != CONTENT_TYPES_PATH@ && p != ROOT_RELS_PATH@ && p
            != WORKBOOK_RELS_PATH@ implies targeted(r, p) || targeted(w, p) by {
        let k = choose|k: int| 0 <= k < l.len() && l[k] == p;
        if k == 2 {
            assert(r[2].0 == p);
        } else if k == 3 {
            assert(r[1].0 == p);
        } else if k == 4 {
            assert(r[0].0 == p);
        } else if 6 <= k < 6 + n as int {
            assert(w[k - 6].0 == p);
        } else if k == 6 + n as int {
            assert(w[n as int].0 == p);
        } else if k == 7 + n as int {
            assert(w[n as int + 1].0 == p);
        } else if has_strings && k == 8 + n as int {
            assert(w[n as int + 2].0 == p);
        } else if k >= 6 {
            assert(w[n as int + 2 + e].0 == p);
        }
    }
}

/// The shared string part is in the package exactly where some string was
/// interned: a package without strings has no such part, not an empty one.
pub proof fn lemma_shared_strings_omitted(n: nat, has_strings: bool, has_metadata: bool)
    ensures
        part_list(n, has_strings, has_metadata).contains(SHARED_STRINGS_PATH@) <==> has_strings,
{
    let l = part_list(n, has_strings, has_metadata);
    let e = if has_strings { 1int } else { 0int };
    lemma_part_list_index(n, has_strings, has_metadata);
    reveal_strlit("[Content_Types].xml");
    reveal_strlit("_rels/.rels");
    reveal_strlit("docProps/app.xml");
    reveal_strlit("docProps/core.xml");
    reveal_strlit("xl/workbook.xml");
    reveal_strlit("xl/_rels/workbook.xml.rels");
    reveal_strlit("xl/theme/theme1.xml");
    reveal_strlit("xl/styles.xml");
    reveal_strlit("xl/sharedStrings.xml");
    reveal_strlit("xl/metadata.xml");
    reveal_strlit("xl/worksheets/sheet");
    reveal_strlit(".xml");
    if has_strings {
        assert(l[8 + n as int] == SHARED_STRINGS_PATH@);
    } else if l.contains(SHARED_STRINGS_PATH@) {
        let k = choose|k: int| 0 <= k < l.len() && l[k] == SHARED_STRINGS_PATH@;
        assert(SHARED_STRINGS_PATH@.len() == 20);
        if 6 <= k < 6 + n as int {
            let d = decimal((k - 5) as nat);
            assert(d.len() >= 1) by {
                reveal_with_fuel(decimal, 1);
            }
            assert(l[k].len() == 23 + d.len());
        } else if k >= 6 + n as int + 2 {
            assert(has_metadata && l[k] == METADATA_PATH@);
        }
    }
}

/// The paths of a list of (path, content) entries.
pub open spec fn entry_paths(entries: Seq<(Seq<char>, Seq<char>)>) -> Seq<Seq<char>> {
    entries.map_values(|e: (Seq<char>, Seq<char>)| e.0)
}

/// Every relationship of every scope targets a part of `parts`.
pub open spec fn all_targets_present(
    parts: Seq<Seq<char>>,
    scopes: Seq<Seq<(Seq<char>, Seq<char>)>>,
) -> bool {
    forall|s: int| 0 <= s < scopes.len() ==> targets_present(parts, #[trigger] scopes[s])
}

/// The entries of the package, in the order they are written: the
/// content-type manifest, the root relationships, then the parts.
pub open spec fn package_entries(
    types: Seq<(Seq<char>, Seq<char>)>,
    root: Seq<(Seq<char>, Seq<char>)>,
    parts: Seq<(Seq<char>, Seq<char>)>,
) -> Seq<(Seq<char>, Seq<char>)> {
    seq![(CONTENT_TYPES_PATH@, types_xml(types)), (ROOT_RELS_PATH@, rels_xml(Seq::empty(), root))]
        + parts
}

pub open spec fn scope_views(scopes: Seq<Relationships>) -> Seq<Seq<(Seq<char>, Seq<char>)>> {
    scopes.map_values(|r: Relationships| r@)
}

/// Assembles the package from the generated parts (each a path and its
/// text, in the order they are to be written), the root relationships, the
/// relationships of the other scopes, and the content types. Where some
/// relationship of the root or of a scope targets no part, nothing is
/// assembled: the error names the scope (0 for the root, `k + 1` for
/// `scopes[k]`) and the relationship's identifier.
pub fn assemble_package(
    parts: &Vec<(String, String)>,
    root: &Relationships,
    scopes: &Vec<Relationships>,
    types: &ContentTypes,
) -> (r: Result<Vec<(String, String)>, (usize, usize)>)
    ensures
        r is Ok <==> targets_present(entry_paths(pair_views(parts@)), root@) && all_targets_present(
            entry_paths(pair_views(parts@)),
            scope_views(scopes@),
        ),
        r matches Ok(entries) ==> pair_views(entries@) == package_entries(
            types@,
            root@,
            pair_views(parts@),
        ),
        r matches Err(e) ==> {
            let (scope, id) = e;
            &&& scope <= scopes@.len()
            &&& scope == 0 ==> 1 <= id <= root@.len() && !entry_paths(pair_views(parts@)).contains(
                root@[id - 1].0,
            )
            &&& scope > 0 ==> 1 <= id <= scopes@[scope - 1]@.len() && !entry_paths(
                pair_views(parts@),
            ).contains(scopes@[scope - 1]@[id - 1].0)
            &&& scope > 0 ==> targets_present(entry_paths(pair_views(parts@)), root@)
                && all_targets_present(
                entry_paths(pair_views(parts@)),
                scope_views(scopes@).take(scope - 1),
            )
        },
{
    let mut paths: Vec<String> = Vec::new();
    let mut i: usize = 0;
    while i < parts.len()
        invariant
            i <= parts@.len(),
            views(paths@) == entry_paths(pair_views(parts@)).take(i as int),
        decreases parts@.len() - i,
    {
        let ghost before = views(paths@);
        paths.push(parts[i].0.clone());
        assert(views(paths@) =~= before.push(parts@[i as int].0@));
        i = i + 1;
        assert(views(paths@) =~= entry_paths(pair_views(parts@)).take(i as int));
    }
    assert(entry_paths(pair_views(parts@)).take(i as int) =~= entry_paths(pair_views(parts@)));
    match validate_targets(&paths, root) {
        Ok(()) => {},
        Err(id) => {
            return Err((0, id));
        },
    }
    let mut k: usize = 0;
    while k < scopes.len()
        invariant
            k <= scopes@.len(),
            views(paths@) == entry_paths(pair_views(parts@)),
            targets_present(views(paths@), root@),
            forall|s: int| 0 <= s < k ==> targets_present(views(paths@), #[trigger] scopes@[s]@),
        decreases scopes@.len() - k,
    {
        match validate_targets(&paths, &scopes[k]) {
            Ok(()) => {},
            Err(id) => {
                proof {
                    let sv = scope_views(scopes@);
                    assert(sv[k as int] == scopes@[k as int]@);
                    assert forall|s: int| 0 <= s < k implies targets_present(
                        views(paths@),
                        #[trigger] sv.take(k as int)[s],
                    ) by {
                        assert(sv.take(k as int)[s] == scopes@[s]@);
                    }
                }
                return Err((k + 1, id));
            },
        }
        k = k + 1;
    }
    proof {
        let sv = scope_views(scopes@);
        assert forall|s: int| 0 <= s < sv.len() implies targets_present(
            views(paths@),
            #[trigger] sv[s],
        ) by {
            assert(sv[s] == scopes@[s]@);
        }
    }
    let mut entries: Vec<(String, String)> = Vec::new();
    entries.push((CONTENT_TYPES_PATH.to_owned(), types.assemble_xml_file()));
    entries.push((ROOT_RELS_PATH.to_owned(), root.assemble_xml_file("")));
    proof {
        reveal_strlit("");
        assert(""@ =~= Seq::<char>::empty());
    }
    let ghost head = pair_views(entries@);
    assert(head =~= seq![
        (CONTENT_TYPES_PATH@, types_xml(types@)),
        (ROOT_RELS_PATH@, rels_xml(Seq::empty(), root@)),
    ]);
    let mut j: usize = 0;
    while j < parts.len()
        invariant
            j <= parts@.len(),
            pair_views(entries@) == head + pair_views(parts@).take(j as int),
        decreases parts@.len() - j,
    {
        let ghost before = pair_views(entries@);
        entries.push((parts[j].0.clone(), parts[j].1.clone()));
        assert(pair_views(entries@) =~= before.push(pair_views(parts@)[j as int]));
        j = j + 1;
        assert(pair_views(entries@) =~= head + pair_views(parts@).take(j as int));
    }
    assert(pair_views(parts@).take(j as int) =~= pair_views(parts@));
    Ok(entries)
}

/// The package depends on nothing but the content types, the relationships
/// and the parts: assembling it twice from the same inputs gives the same
/// entries in the same order, with the same text.
pub proof fn lemma_package_deterministic(
    types: Seq<(Seq<char>, Seq<char>)>,
    root: Seq<(Seq<char>, Seq<char>)>,
    parts: Seq<(Seq<char>, Seq<char>)>,
    types2: Seq<(Seq<char>, Seq<char>)>,
    root2: Seq<(Seq<char>, Seq<char>)>,
    parts2: Seq<(Seq<char>, Seq<char>)>,
)
    requires
        types == types2,
        root == root2,
        parts == parts2,
    ensures
        package_entries(types, root, parts) == package_entries(types2, root2, parts2),
        package_entries(types, root, parts).len() == parts.len() + 2,
        package_entries(types, root, parts)[0].0 == CONTENT_TYPES_PATH@,
        package_entries(types, root, parts)[1].0 == ROOT_RELS_PATH@,
{
}

/// The target paths of `rels`, as a set.
pub open spec fn target_set(rels: Seq<(Seq<char>, Seq<char>)>) -> Set<Seq<char>> {
    entry_paths(rels).to_set()
}

/// A scope of the package: the path of its source part and its
/// relationships.
pub open spec fn scope_of(s: (String, Relationships)) -> (Seq<char>, Seq<(Seq<char>, Seq<char>)>) {
    (s.0@, s.1@)
}

pub open spec fn sourced_views(scopes: Seq<(String, Relationships)>) -> Seq<
    (Seq<char>, Seq<(Seq<char>, Seq<char>)>),
> {
    scopes.map_values(|s: (String, Relationships)| scope_of(s))
}

/// The parts reached after the first `k` scopes are taken in order: the
/// targets of the root, and the targets of each scope whose source part was
/// reached before it.
pub open spec fn reached(
    root: Seq<(Seq<char>, Seq<char>)>,
    scopes: Seq<(Seq<char>, Seq<(Seq<char>, Seq<char>)>)>,
    k: nat,
) -> Set<Seq<char>>
    decreases k,
{
    if k == 0 {
        target_set(root)
    } else {
        let r = reached(root, scopes, (k - 1) as nat);
        if r.contains(scopes[k - 1].0) {
            r.union(target_set(scopes[k - 1].1))
        } else {
            r
        }
    }
}

/// `chain` is a path of relationships from the root to `p`: its first scope's
/// source is a target of the root, each next scope's source is a target of
/// the scope before, and `p` is a target of the last scope (or of the root,
/// where the chain is empty).
pub open spec fn is_chain(
    root: Seq<(Seq<char>, Seq<char>)>,
    scopes: Seq<(Seq<char>, Seq<(Seq<char>, Seq<char>)>)>,
    chain: Seq<int>,
    p: Seq<char>,
) -> bool {
    &&& forall|j: int| 0 <= j < chain.len() ==> 0 <= #[trigger] chain[j] < scopes.len()
    &&& chain.len() == 0 ==> target_set(root).contains(p)
    &&& chain.len() > 0 ==> {
        &&& target_set(root).contains(scopes[chain[0]].0)
        &&& forall|j: int|
            0 <= j < chain.len() - 1 ==> target_set(scopes[chain[j]].1).contains(
                #[trigger] scopes[chain[j + 1]].0,
            )
        &&& target_set(scopes[chain.last()].1).contains(p)
    }
}

/// Some chain of relationships leads from the root to `p`.
pub open spec fn reachable(
    root: Seq<(Seq<char>, Seq<char>)>,
    scopes: Seq<(Seq<char>, Seq<(Seq<char>, Seq<char>)>)>,
    p: Seq<char>,
) -> bool {
    exists|chain: Seq<int>| is_chain(root, scopes, chain, p)
}

/// Every part reached by taking the scopes in order is reached from the
/// root through a chain of relationships.
pub proof fn lemma_reached_has_chain(
    root: Seq<(Seq<char>, Seq<char>)>,
    scopes: Seq<(Seq<char>, Seq<(Seq<char>, Seq<char>)>)>,
    k: nat,
    p: Seq<char>,
)
    requires
        k <= scopes.len(),
        reached(root, scopes, k).contains(p),
    ensures
        reachable(root, scopes, p),
    decreases k,
{
    if k == 0 {
        assert(is_chain(root, scopes, Seq::empty(), p));
    } else {
        let r = reached(root, scopes, (k - 1) as nat);
        if r.contains(p) {
            lemma_reached_has_chain(root, scopes, (k - 1) as nat, p);
        } else {
            let src = scopes[k - 1].0;
            lemma_reached_has_chain(root, scopes, (k - 1) as nat, src);
            let c = choose|c: Seq<int>| is_chain(root, scopes, c, src);
            let c2 = c.push(k - 1);
            assert forall|j: int| 0 <= j < c2.len() - 1 implies target_set(
                scopes[c2[j]].1,
            ).contains(#[trigger] scopes[c2[j + 1]].0) by {
                if j < c.len() - 1 {
                    assert(c2[j] == c[j] && c2[j + 1] == c[j + 1]);
                } else {
                    assert(c2[j] == c.last());
                    assert(c2[j + 1] == k - 1);
                }
            }
            assert(forall|j: int| 0 <= j < c2.len() ==> 0 <= #[trigger] c2[j] < scopes.len());
            if c.len() == 0 {
                assert(c2[0] == k - 1);
            } else {
                assert(c2[0] == c[0]);
            }
            assert(is_chain(root, scopes, c2, p));
        }
    }
}

/// Whether `v` holds `s`.
fn holds(v: &Vec<String>, s: &String) -> (r: bool)
    ensures
        r == views(v@).contains(s@),
{
    let mut i: usize = 0;
    while i < v.len()
        invariant
            i <= v@.len(),
            forall|k: int| 0 <= k < i ==> views(v@)[k] != s@,
        decreases v@.len() - i,
    {
        if v[i] == *s {
            assert(views(v@)[i as int] == s@);
            return true;
        }
        i = i + 1;
    }
    false
}

/// Appends the targets of `rels`.
fn push_targets(v: &mut Vec<String>, rels: &Relationships)
    ensures
        views(final(v)@).to_set() == views(old(v)@).to_set().union(target_set(rels@)),
{
    let mut j: usize = 0;
    while j < rels.len()
        invariant
            j <= rels@.len(),
            views(v@).to_set() == views(old(v)@).to_set().union(
                target_set(rels@.take(j as int)),
            ),
        decreases rels@.len() - j,
    {
        let ghost before = views(v@);
        v.push(rels.target(j + 1).to_owned());
        proof {
            let t = rels@[j as int].0;
            assert(views(v@) =~= before.push(t));
            assert(entry_paths(rels@.take(j + 1)) =~= entry_paths(rels@.take(j as int)).push(t));
            before.lemma_push_to_set_commute(t);
            let e = entry_paths(rels@.take(j as int));
            e.lemma_push_to_set_commute(t);
            assert(views(v@).to_set() =~= views(old(v)@).to_set().union(
                target_set(rels@.take(j + 1)),
            ));
        }
        j = j + 1;
    }
    assert(rels@.take(j as int) =~= rels@);
}

/// Validates that every part of `parts` is reached from the root: the
/// scopes are taken in order, each one's targets counting as reached where
/// its source part was reached before it. The error is the position of the
/// first part that is not reached.
pub fn validate_reachable(
    parts: &Vec<String>,
    root: &Relationships,
    scopes: &Vec<(String, Relationships)>,
) -> (r: Result<(), usize>)
    ensures
        r is Ok <==> forall|i: int|
            0 <= i < parts@.len() ==> reached(
                root@,
                sourced_views(scopes@),
                scopes@.len() as nat,
            ).contains(#[trigger] views(parts@)[i]),
        r matches Err(i) ==> i < parts@.len() && !reached(
            root@,
            sourced_views(scopes@),
            scopes@.len() as nat,
        ).contains(views(parts@)[i as int]),
{
    let ghost sv = sourced_views(scopes@);
    let mut seen: Vec<String> = Vec::new();
    push_targets(&mut seen, root);
    proof {
        assert(views(Seq::<String>::empty()).to_set() =~= Set::<Seq<char>>::empty());
        assert(views(seen@).to_set() =~= reached(root@, sv, 0));
    }
    let mut k: usize = 0;
    while k < scopes.len()
        invariant
            k <= scopes@.len(),
            sv == sourced_views(scopes@),
            views(seen@).to_set() == reached(root@, sv, k as nat),
        decreases scopes@.len() - k,
    {
        assert(sv[k as int] == scope_of(scopes@[k as int]));
        if holds(&seen, &scopes[k].0) {
            push_targets(&mut seen, &scopes[k].1);
        }
        k = k + 1;
    }
    let mut i: usize = 0;
    while i < parts.len()
        invariant
            i <= parts@.len(),
            views(seen@).to_set() == reached(root@, sv, scopes@.len() as nat),
            sv == sourced_views(scopes@),
            forall|j: int| 0 <= j < i ==> reached(root@, sv, scopes@.len() as nat).contains(
                #[trigger] views(parts@)[j],
            ),
        decreases parts@.len() - i,
    {
        if !holds(&seen, &parts[i]) {
            assert(views(parts@)[i as int] == parts@[i as int]@);
            return Err(i);
        }
        i = i + 1;
    }
    Ok(())
}

/// Where every part is reached by taking the scopes in order (the parts that
/// `validate_reachable` accepts), each one is reached from the package root
/// through a chain of relationships.
pub proof fn lemma_validated_parts_reachable(
    parts: Seq<Seq<char>>,
    root: Seq<(Seq<char>, Seq<char>)>,
    scopes: Seq<(Seq<char>, Seq<(Seq<char>, Seq<char>)>)>,
)
    requires
        forall|i: int|
            0 <= i < parts.len() ==> reached(root, scopes, scopes.len() as nat).contains(
                #[trigger] parts[i],
            ),
    ensures
        forall|i: int| 0 <= i < parts.len() ==> reachable(root, scopes, #[trigger] parts[i]),
{
    assert forall|i: int| 0 <= i < parts.len() implies reachable(root, scopes, #[trigger] parts[i]) by {
        lemma_reached_has_chain(root, scopes, scopes.len() as nat, parts[i]);
    }
}

} // verus!
