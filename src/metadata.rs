//! The cell metadata part (`xl/metadata.xml`), which marks dynamic array
//! formulas and images embedded in cells.

use vstd::prelude::*;
use vstd::string::*;

use crate::xml::{
    attrs_view, decimal, decimal_string, declaration_text, empty_tag_text, end_tag_text,
    start_tag_only_text, start_tag_text, xml_declaration, xml_empty_tag, xml_end_tag,
    xml_start_tag, xml_start_tag_only,
};

verus! {

/// The generator of the metadata part. The flags and the image count are
/// set by the workbook before `assemble_xml_file` writes the part into
/// `writer`.
pub struct Metadata {
    pub writer: String,
    pub has_dynamic_functions: bool,
    pub has_embedded_images: bool,
    pub num_embedded_images: u32,
}

pub open spec fn ns_main() -> Seq<char> {
    "http://schemas.openxmlformats.org/spreadsheetml/2006/main"@
}

pub open spec fn ns_richdata() -> Seq<char> {
    "http://schemas.microsoft.com/office/spreadsheetml/2017/richdata"@
}

pub open spec fn ns_dynamic_array() -> Seq<char> {
    "http://schemas.microsoft.com/office/spreadsheetml/2017/dynamicarray"@
}

pub open spec fn opt_attrs(
    c: bool,
    a: Seq<(Seq<char>, Seq<char>)>,
) -> Seq<(Seq<char>, Seq<char>)> {
    if c {
        a
    } else {
        Seq::empty()
    }
}

pub open spec fn opt_text(c: bool, t: Seq<char>) -> Seq<char> {
    if c {
        t
    } else {
        Seq::empty()
    }
}

/// The namespaces of the root element: the main one, then the rich data
/// one where images are embedded, then the dynamic array one where there
/// are dynamic functions.
pub open spec fn metadata_attrs(dynamic: bool, images: bool) -> Seq<(Seq<char>, Seq<char>)> {
    seq![("xmlns"@, ns_main())] + opt_attrs(images, seq![("xmlns:xlrd"@, ns_richdata())])
        + opt_attrs(dynamic, seq![("xmlns:xda"@, ns_dynamic_array())])
}

/// The number of metadata types: one for each flag that is set.
pub open spec fn type_count(dynamic: bool, images: bool) -> nat {
    (if dynamic { 1nat } else { 0nat }) + (if images { 1nat } else { 0nat })
}

pub open spec fn common_type_attrs() -> Seq<(&'static str, &'static str)> {
    seq![
        ("minSupportedVersion", "120000"),
        ("copy", "1"),
        ("pasteAll", "1"),
        ("pasteValues", "1"),
        ("merge", "1"),
        ("splitFirst", "1"),
        ("rowColShift", "1"),
        ("clearFormats", "1"),
        ("clearComments", "1"),
        ("assign", "1"),
        ("coerce", "1"),
    ]
}

/// The attributes of the dynamic array metadata type.
pub open spec fn cell_type_attrs() -> Seq<(&'static str, &'static str)> {
    seq![("name", "XLDAPR")] + common_type_attrs() + seq![("cellMeta", "1")]
}

/// The attributes of the rich value metadata type.
pub open spec fn value_type_attrs() -> Seq<(&'static str, &'static str)> {
    seq![("name", "XLRICHVALUE")] + common_type_attrs()
}

#[verifier::opaque]
pub open spec fn metadata_types_text(dynamic: bool, images: bool) -> Seq<char> {
    start_tag_text("metadataTypes"@, seq![("count"@, decimal(type_count(dynamic, images)))])
        + opt_text(dynamic, empty_tag_text("metadataType"@, attrs_view(cell_type_attrs())))
        + opt_text(images, empty_tag_text("metadataType"@, attrs_view(value_type_attrs())))
        + end_tag_text("metadataTypes"@)
}

pub open spec fn cell_ext_text() -> Seq<char> {
    start_tag_text("ext"@, seq![("uri"@, "{bdbb8cdc-fa1e-496e-a857-3c3f30c029c3}"@)])
        + empty_tag_text(
        "xda:dynamicArrayProperties"@,
        seq![("fDynamic"@, "1"@), ("fCollapsed"@, "0"@)],
    ) + end_tag_text("ext"@)
}

#[verifier::opaque]
pub open spec fn cell_future_text() -> Seq<char> {
    start_tag_text("futureMetadata"@, seq![("name"@, "XLDAPR"@), ("count"@, "1"@)])
        + start_tag_only_text("bk"@) + start_tag_only_text("extLst"@) + cell_ext_text()
        + end_tag_text("extLst"@) + end_tag_text("bk"@) + end_tag_text("futureMetadata"@)
}

pub open spec fn value_ext_text(index: nat) -> Seq<char> {
    start_tag_text("ext"@, seq![("uri"@, "{3e2802c4-a4d2-4d8b-9148-e3be6c30e623}"@)])
        + empty_tag_text("xlrd:rvb"@, seq![("i"@, decimal(index))]) + end_tag_text("ext"@)
}

/// The `<bk>` blocks of the first `k` embedded images.
pub open spec fn value_future_blocks(k: nat) -> Seq<char>
    decreases k,
{
    if k == 0 {
        Seq::empty()
    } else {
        value_future_blocks((k - 1) as nat) + start_tag_only_text("bk"@) + start_tag_only_text(
            "extLst"@,
        ) + value_ext_text((k - 1) as nat) + end_tag_text("extLst"@) + end_tag_text("bk"@)
    }
}

#[verifier::opaque]
pub open spec fn value_future_text(n: nat) -> Seq<char> {
    start_tag_text("futureMetadata"@, seq![("name"@, "XLRICHVALUE"@), ("count"@, decimal(n))])
        + value_future_blocks(n) + end_tag_text("futureMetadata"@)
}

pub open spec fn rc_text(rc_type: nat, value: nat) -> Seq<char> {
    empty_tag_text("rc"@, seq![("t"@, decimal(rc_type)), ("v"@, decimal(value))])
}

#[verifier::opaque]
pub open spec fn cell_metadata_text() -> Seq<char> {
    start_tag_text("cellMetadata"@, seq![("count"@, "1"@)]) + start_tag_only_text("bk"@) + rc_text(
        1,
        0,
    ) + end_tag_text("bk"@) + end_tag_text("cellMetadata"@)
}

/// The `<bk>` blocks of the first `k` embedded images, each naming the
/// metadata type `rc_type`.
pub open spec fn value_metadata_blocks(rc_type: nat, k: nat) -> Seq<char>
    decreases k,
{
    if k == 0 {
        Seq::empty()
    } else {
        value_metadata_blocks(rc_type, (k - 1) as nat) + start_tag_only_text("bk"@) + rc_text(
            rc_type,
            (k - 1) as nat,
        ) + end_tag_text("bk"@)
    }
}

/// The rich value type is the second type where dynamic functions come first.
pub open spec fn value_rc_type(dynamic: bool) -> nat {
    if dynamic {
        2
    } else {
        1
    }
}

#[verifier::opaque]
pub open spec fn value_metadata_text(dynamic: bool, n: nat) -> Seq<char> {
    start_tag_text("valueMetadata"@, seq![("count"@, decimal(n))]) + value_metadata_blocks(
        value_rc_type(dynamic),
        n,
    ) + end_tag_text("valueMetadata"@)
}

/// The whole text of the metadata part for the given flags and image count.
pub open spec fn metadata_xml(dynamic: bool, images: bool, n: nat) -> Seq<char> {
    declaration_text() + start_tag_text("metadata"@, metadata_attrs(dynamic, images))
        + metadata_types_text(dynamic, images) + opt_text(dynamic, cell_future_text()) + opt_text(
        images,
        value_future_text(n),
    ) + opt_text(dynamic, cell_metadata_text()) + opt_text(images, value_metadata_text(dynamic, n))
        + end_tag_text("metadata"@)
}

impl Metadata {
    pub open spec fn same_settings(&self, other: &Metadata) -> bool {
        &&& self.has_dynamic_functions == other.has_dynamic_functions
        &&& self.has_embedded_images == other.has_embedded_images
        &&& self.num_embedded_images == other.num_embedded_images
    }

    /// The text that `assemble_xml_file` writes for these settings.
    pub open spec fn xml(&self) -> Seq<char> {
        metadata_xml(
            self.has_dynamic_functions,
            self.has_embedded_images,
            self.num_embedded_images as nat,
        )
    }

    /// A generator with an empty buffer, no flags set and no images.
    pub fn new() -> (r: Metadata)
        ensures
            r.writer@ == Seq::<char>::empty(),
            !r.has_dynamic_functions,
            !r.has_embedded_images,
            r.num_embedded_images == 0,
    {
        Metadata {
            writer: String::new(),
            has_dynamic_functions: false,
            has_embedded_images: false,
            num_embedded_images: 0,
        }
    }

    /// Writes the whole part after what the buffer holds.
    pub fn assemble_xml_file(&mut self)
        ensures
            final(self).same_settings(old(self)),
            final(self).writer@ == old(self).writer@ + old(self).xml(),
    {
        let ghost w0 = self.writer@;
        let ghost d = self.has_dynamic_functions;
        let ghost i = self.has_embedded_images;
        let ghost n = self.num_embedded_images as nat;
        xml_declaration(&mut self.writer);
        self.write_metadata();
        let ghost a = declaration_text() + start_tag_text("metadata"@, metadata_attrs(d, i));
        assert(self.writer@ =~= w0 + a);
        self.write_metadata_types();
        let ghost b = a + metadata_types_text(d, i);
        assert(self.writer@ =~= w0 + b);
        if self.has_dynamic_functions {
            self.write_cell_future_metadata();
        }
        let ghost c = b + opt_text(d, cell_future_text());
        assert(self.writer@ =~= w0 + c);
        if self.has_embedded_images {
            self.write_value_future_metadata();
        }
        let ghost e = c + opt_text(i, value_future_text(n));
        assert(self.writer@ =~= w0 + e);
        if self.has_dynamic_functions {
            self.write_cell_metadata();
        }
        let ghost f = e + opt_text(d, cell_metadata_text());
        assert(self.writer@ =~= w0 + f);
        if self.has_embedded_images {
            self.write_value_metadata();
        }
        let ghost g = f + opt_text(i, value_metadata_text(d, n));
        assert(self.writer@ =~= w0 + g);
        xml_end_tag(&mut self.writer, "metadata");
        assert(self.writer@ =~= w0 + (g + end_tag_text("metadata"@)));
    }

    /// Writes the `<metadata>` start tag with its namespaces.
    fn write_metadata(&mut self)
        ensures
            final(self).same_settings(old(self)),
            final(self).writer@ == old(self).writer@ + start_tag_text(
                "metadata"@,
                metadata_attrs(old(self).has_dynamic_functions, old(self).has_embedded_images),
            ),
    {
        let mut attributes: Vec<(&str, &str)> = Vec::new();
        attributes.push(("xmlns", "http://schemas.openxmlformats.org/spreadsheetml/2006/main"));
        if self.has_embedded_images {
            attributes.push(
                ("xmlns:xlrd", "http://schemas.microsoft.com/office/spreadsheetml/2017/richdata"),
            );
        }
        if self.has_dynamic_functions {
            attributes.push(
                (
                    "xmlns:xda",
                    "http://schemas.microsoft.com/office/spreadsheetml/2017/dynamicarray",
                ),
            );
        }
        assert(attrs_view(attributes@) =~= metadata_attrs(
            self.has_dynamic_functions,
            self.has_embedded_images,
        ));
        xml_start_tag(&mut self.writer, "metadata", &attributes);
    }

    /// Writes the `<metadataTypes>` element with a type for each flag set.
    fn write_metadata_types(&mut self)
        ensures
            final(self).same_settings(old(self)),
            final(self).writer@ == old(self).writer@ + metadata_types_text(
                old(self).has_dynamic_functions,
                old(self).has_embedded_images,
            ),
    {
        proof {
            reveal(metadata_types_text);
        }
        let mut count: u32 = 0;
        if self.has_dynamic_functions {
            count += 1;
        }
        if self.has_embedded_images {
            count += 1;
        }
        let count_text = decimal_string(count as u64);
        let attributes = vec![("count", count_text.as_str())];
        assert(attrs_view(attributes@) =~= seq![
            ("count"@, decimal(type_count(self.has_dynamic_functions, self.has_embedded_images))),
        ]);
        xml_start_tag(&mut self.writer, "metadataTypes", &attributes);
        if self.has_dynamic_functions {
            self.write_cell_metadata_type();
        }
        if self.has_embedded_images {
            self.write_value_metadata_type();
        }
        xml_end_tag(&mut self.writer, "metadataTypes");
        assert(self.writer@ =~= old(self).writer@ + metadata_types_text(
            old(self).has_dynamic_functions,
            old(self).has_embedded_images,
        ));
    }

    /// Writes the dynamic array `<metadataType>` element.
    fn write_cell_metadata_type(&mut self)
        ensures
            final(self).same_settings(old(self)),
            final(self).writer@ == old(self).writer@ + empty_tag_text(
                "metadataType"@,
                attrs_view(cell_type_attrs()),
            ),
    {
        let attributes = vec![
            ("name", "XLDAPR"),
            ("minSupportedVersion", "120000"),
            ("copy", "1"),
            ("pasteAll", "1"),
            ("pasteValues", "1"),
            ("merge", "1"),
            ("splitFirst", "1"),
            ("rowColShift", "1"),
            ("clearFormats", "1"),
            ("clearComments", "1"),
            ("assign", "1"),
            ("coerce", "1"),
            ("cellMeta", "1"),
        ];
        assert(attributes@ =~= cell_type_attrs());
        xml_empty_tag(&mut self.writer, "metadataType", &attributes);
    }

    /// Writes the rich value `<metadataType>` element.
    fn write_value_metadata_type(&mut self)
        ensures
            final(self).same_settings(old(self)),
            final(self).writer@ == old(self).writer@ + empty_tag_text(
                "metadataType"@,
                attrs_view(value_type_attrs()),
            ),
    {
        let attributes = vec![
            ("name", "XLRICHVALUE"),
            ("minSupportedVersion", "120000"),
            ("copy", "1"),
            ("pasteAll", "1"),
            ("pasteValues", "1"),
            ("merge", "1"),
            ("splitFirst", "1"),
            ("rowColShift", "1"),
            ("clearFormats", "1"),
            ("clearComments", "1"),
            ("assign", "1"),
            ("coerce", "1"),
        ];
        assert(attributes@ =~= value_type_attrs());
        xml_empty_tag(&mut self.writer, "metadataType", &attributes);
    }

    /// Writes the dynamic array `<futureMetadata>` element.
    fn write_cell_future_metadata(&mut self)
        ensures
            final(self).same_settings(old(self)),
            final(self).writer@ == old(self).writer@ + cell_future_text(),
    {
        proof {
            reveal(cell_future_text);
        }
        let attributes = vec![("name", "XLDAPR"), ("count", "1")];
        assert(attrs_view(attributes@) =~= seq![("name"@, "XLDAPR"@), ("count"@, "1"@)]);
        xml_start_tag(&mut self.writer, "futureMetadata", &attributes);
        xml_start_tag_only(&mut self.writer, "bk");
        xml_start_tag_only(&mut self.writer, "extLst");
        self.write_cell_ext();
        xml_end_tag(&mut self.writer, "extLst");
        xml_end_tag(&mut self.writer, "bk");
        xml_end_tag(&mut self.writer, "futureMetadata");
        assert(self.writer@ =~= old(self).writer@ + cell_future_text());
    }

    /// Writes the rich value `<futureMetadata>` element, with a block for
    /// each embedded image.
    fn write_value_future_metadata(&mut self)
        ensures
            final(self).same_settings(old(self)),
            final(self).writer@ == old(self).writer@ + value_future_text(
                old(self).num_embedded_images as nat,
            ),
    {
        proof {
            reveal(value_future_text);
        }
        let count_text = decimal_string(self.num_embedded_images as u64);
        let attributes = vec![("name", "XLRICHVALUE"), ("count", count_text.as_str())];
        assert(attrs_view(attributes@) =~= seq![
            ("name"@, "XLRICHVALUE"@),
            ("count"@, decimal(self.num_embedded_images as nat)),
        ]);
        xml_start_tag(&mut self.writer, "futureMetadata", &attributes);
        let ghost start = self.writer@;
        let mut index: u32 = 0;
        while index < self.num_embedded_images
            invariant
                self.same_settings(old(self)),
                index <= self.num_embedded_images,
                self.writer@ == start + value_future_blocks(index as nat),
            decreases self.num_embedded_images - index,
        {
            xml_start_tag_only(&mut self.writer, "bk");
            xml_start_tag_only(&mut self.writer, "extLst");
            self.write_value_ext(index);
            xml_end_tag(&mut self.writer, "extLst");
            xml_end_tag(&mut self.writer, "bk");
            index = index + 1;
            assert(self.writer@ =~= start + value_future_blocks(index as nat));
        }
        xml_end_tag(&mut self.writer, "futureMetadata");
        assert(self.writer@ =~= old(self).writer@ + value_future_text(
            old(self).num_embedded_images as nat,
        ));
    }

    /// Writes the `<ext>` element of the dynamic array type.
    fn write_cell_ext(&mut self)
        ensures
            final(self).same_settings(old(self)),
            final(self).writer@ == old(self).writer@ + cell_ext_text(),
    {
        let attributes = vec![("uri", "{bdbb8cdc-fa1e-496e-a857-3c3f30c029c3}")];
        assert(attrs_view(attributes@) =~= seq![
            ("uri"@, "{bdbb8cdc-fa1e-496e-a857-3c3f30c029c3}"@),
        ]);
        xml_start_tag(&mut self.writer, "ext", &attributes);
        self.write_xda_dynamic_array_properties();
        xml_end_tag(&mut self.writer, "ext");
        assert(self.writer@ =~= old(self).writer@ + cell_ext_text());
    }

    /// Writes the `<ext>` element of the image at `index`.
    fn write_value_ext(&mut self, index: u32)
        ensures
            final(self).same_settings(old(self)),
            final(self).writer@ == old(self).writer@ + value_ext_text(index as nat),
    {
        let attributes = vec![("uri", "{3e2802c4-a4d2-4d8b-9148-e3be6c30e623}")];
        assert(attrs_view(attributes@) =~= seq![
            ("uri"@, "{3e2802c4-a4d2-4d8b-9148-e3be6c30e623}"@),
        ]);
        xml_start_tag(&mut self.writer, "ext", &attributes);
        self.write_xlrd_rvb(index);
        xml_end_tag(&mut self.writer, "ext");
        assert(self.writer@ =~= old(self).writer@ + value_ext_text(index as nat));
    }

    /// Writes the `<xlrd:rvb>` element that points at rich value `index`.
    fn write_xlrd_rvb(&mut self, index: u32)
        ensures
            final(self).same_settings(old(self)),
            final(self).writer@ == old(self).writer@ + empty_tag_text(
                "xlrd:rvb"@,
                seq![("i"@, decimal(index as nat))],
            ),
    {
        let index_text = decimal_string(index as u64);
        let attributes = vec![("i", index_text.as_str())];
        assert(attrs_view(attributes@) =~= seq![("i"@, decimal(index as nat))]);
        xml_empty_tag(&mut self.writer, "xlrd:rvb", &attributes);
    }

    /// Writes the `<xda:dynamicArrayProperties>` element.
    fn write_xda_dynamic_array_properties(&mut self)
        ensures
            final(self).same_settings(old(self)),
            final(self).writer@ == old(self).writer@ + empty_tag_text(
                "xda:dynamicArrayProperties"@,
                seq![("fDynamic"@, "1"@), ("fCollapsed"@, "0"@)],
            ),
    {
        let attributes = vec![("fDynamic", "1"), ("fCollapsed", "0")];
        assert(attrs_view(attributes@) =~= seq![("fDynamic"@, "1"@), ("fCollapsed"@, "0"@)]);
        xml_empty_tag(&mut self.writer, "xda:dynamicArrayProperties", &attributes);
    }

    /// Writes the `<cellMetadata>` element.
    fn write_cell_metadata(&mut self)
        ensures
            final(self).same_settings(old(self)),
            final(self).writer@ == old(self).writer@ + cell_metadata_text(),
    {
        proof {
            reveal(cell_metadata_text);
        }
        let attributes = vec![("count", "1")];
        assert(attrs_view(attributes@) =~= seq![("count"@, "1"@)]);
        xml_start_tag(&mut self.writer, "cellMetadata", &attributes);
        xml_start_tag_only(&mut self.writer, "bk");
        self.write_rc(1, 0);
        xml_end_tag(&mut self.writer, "bk");
        xml_end_tag(&mut self.writer, "cellMetadata");
        assert(self.writer@ =~= old(self).writer@ + cell_metadata_text());
    }

    /// Writes the `<valueMetadata>` element, with a block for each
    /// embedded image.
    fn write_value_metadata(&mut self)
        ensures
            final(self).same_settings(old(self)),
            final(self).writer@ == old(self).writer@ + value_metadata_text(
                old(self).has_dynamic_functions,
                old(self).num_embedded_images as nat,
            ),
    {
        proof {
            reveal(value_metadata_text);
        }
        let count_text = decimal_string(self.num_embedded_images as u64);
        let attributes = vec![("count", count_text.as_str())];
        assert(attrs_view(attributes@) =~= seq![
            ("count"@, decimal(self.num_embedded_images as nat)),
        ]);
        let rc_type: u32 = if self.has_dynamic_functions {
            2
        } else {
            1
        };
        xml_start_tag(&mut self.writer, "valueMetadata", &attributes);
        let ghost start = self.writer@;
        let mut index: u32 = 0;
        while index < self.num_embedded_images
            invariant
                self.same_settings(old(self)),
                rc_type as nat == value_rc_type(self.has_dynamic_functions),
                index <= self.num_embedded_images,
                self.writer@ == start + value_metadata_blocks(rc_type as nat, index as nat),
            decreases self.num_embedded_images - index,
        {
            xml_start_tag_only(&mut self.writer, "bk");
            self.write_rc(rc_type, index);
            xml_end_tag(&mut self.writer, "bk");
            index = index + 1;
            assert(self.writer@ =~= start + value_metadata_blocks(rc_type as nat, index as nat));
        }
        xml_end_tag(&mut self.writer, "valueMetadata");
        assert(self.writer@ =~= old(self).writer@ + value_metadata_text(
            old(self).has_dynamic_functions,
            old(self).num_embedded_images as nat,
        ));
    }

    /// Writes an `<rc>` element: metadata type `rc_type`, entry `value`.
    fn write_rc(&mut self, rc_type: u32, value: u32)
        ensures
            final(self).same_settings(old(self)),
            final(self).writer@ == old(self).writer@ + rc_text(rc_type as nat, value as nat),
    {
        let type_text = decimal_string(rc_type as u64);
        let value_text = decimal_string(value as u64);
        let attributes = vec![("t", type_text.as_str()), ("v", value_text.as_str())];
        assert(attrs_view(attributes@) =~= seq![
            ("t"@, decimal(rc_type as nat)),
            ("v"@, decimal(value as nat)),
        ]);
        xml_empty_tag(&mut self.writer, "rc", &attributes);
    }
}

/// The text of the part depends on the settings alone: two generators with
/// the same flags and image count, or one generator assembled twice without a
/// change of its settings, write the same text.
pub proof fn lemma_assembly_deterministic(a: Metadata, b: Metadata)
    requires
        a.same_settings(&b),
    ensures
        a.xml() == b.xml(),
{
}

} // verus!
