use rust_xlsxwriter::formats::{Border, Fill, Font, Format, FormatRegistry, GRAY125};

fn default_format() -> Format {
    Format {
        num_format: 0,
        font: Font {
            bold: false,
            italic: false,
            underline: 0,
            strikethrough: false,
            size: 220,
            color: 0,
        },
        fill: Fill { pattern: 0, foreground: 0, background: 0 },
        border: Border { left: 0, right: 0, top: 0, bottom: 0, color: 0 },
        horizontal: 0,
        vertical: 0,
        wrap: false,
        locked: true,
        hidden: false,
    }
}

fn bold_red() -> Format {
    let mut f = default_format();
    f.font.bold = true;
    f.font.color = 0xFF0000;
    f
}

#[test]
fn built_in_entries() {
    let reg = FormatRegistry::new();
    assert_eq!(reg.len(), 1);
    assert_eq!(reg.font_count(), 1);
    assert_eq!(reg.fill_count(), 2);
    assert_eq!(reg.border_count(), 1);
    assert_eq!(GRAY125, 17);
}

#[test]
fn equal_descriptors_share_an_index() {
    let f1 = bold_red();
    let f2 = bold_red();
    let (reg, indices) = FormatRegistry::from_formats(&vec![f1, f2]);
    assert_eq!(indices, vec![1, 1]);
    assert_eq!(reg.len(), 2);
}

#[test]
fn default_descriptor_resolves_to_zero() {
    let mut reg = FormatRegistry::new();
    assert_eq!(reg.resolve(default_format()), 0);
    assert_eq!(reg.len(), 1);
}

#[test]
fn distinct_descriptors_over_many_cells() {
    let a = bold_red();
    let mut b = bold_red();
    b.font.italic = true;
    let mut c = default_format();
    c.num_format = 14;
    let cells = vec![a, b, a, c, b, a, c];
    let (reg, indices) = FormatRegistry::from_formats(&cells);
    assert_eq!(reg.len(), 4);
    assert_eq!(indices, vec![1, 2, 1, 3, 2, 1, 3]);
}

#[test]
fn sub_records_are_shared() {
    let a = bold_red();
    let mut b = bold_red();
    b.num_format = 2;
    let mut c = default_format();
    c.fill = Fill { pattern: 1, foreground: 0xFFFF00, background: 0 };
    let mut reg = FormatRegistry::new();
    let ia = reg.resolve(a);
    let ib = reg.resolve(b);
    let ic = reg.resolve(c);
    assert_eq!((ia, ib, ic), (1, 2, 3));
    assert_eq!(reg.font_count(), 2);
    assert_eq!(reg.fill_count(), 3);
    assert_eq!(reg.border_count(), 1);
    let ra = reg.record(ia);
    let rb = reg.record(ib);
    let rc = reg.record(ic);
    assert_eq!(ra.font, 1);
    assert_eq!(rb.font, 1);
    assert_eq!(rb.num_format, 2);
    assert_eq!(rc.font, 0);
    assert_eq!(rc.fill, 2);
    assert_eq!(reg.record(0).fill, 0);
}

#[test]
fn gray_fill_reuses_the_built_in_entry() {
    let mut f = default_format();
    f.fill.pattern = GRAY125;
    let mut reg = FormatRegistry::new();
    let i = reg.resolve(f);
    assert_eq!(i, 1);
    assert_eq!(reg.fill_count(), 2);
    assert_eq!(reg.record(i).fill, 1);
}
