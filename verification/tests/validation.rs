use diavolo_format::problem::Problem;
use diavolo_format::schema::{
    AcceptRow, Acceptance, BlockType, Constant, Enum, EnumValue, Field, FlagBit, FlagSet, Format,
    Heap, IndexTable, Layout, Magic, Phase, Rule, Rules, Version,
};
use diavolo_format::strmap::SortedStrMap;
use diavolo_format::validate::validate;

fn s(x: &str) -> String {
    x.to_string()
}

fn value(name: &str, v: u64) -> EnumValue {
    EnumValue { name: s(name), value: v, registered_undefined: false, doc: s("") }
}

fn field(off: u64, name: &str, ty: &str) -> Field {
    Field {
        off,
        name: s(name),
        ty: s(ty),
        doc: None,
        enum_: None,
        flags: None,
        reserved: name.starts_with("reserved"),
    }
}

fn layout(name: &str, size: u64, fields: Vec<Field>) -> Layout {
    Layout { name: s(name), size, doc: s(""), heap_refs: vec![], fields }
}

fn valid_format() -> Format {
    let mut kinds = SortedStrMap::new();
    kinds.insert(s("regular"), vec![s("extents"), s("inherited")]);
    kinds.insert(s("dir"), vec![s("excluded")]);
    let mut block_header = layout(
        "block_header",
        8,
        vec![field(0, "flags", "u32"), field(4, "file_type", "u16"), field(6, "reserved0", "bytes2")],
    );
    block_header.fields[0].flags = Some(s("block_flags"));
    block_header.fields[1].enum_ = Some(s("file_type"));
    let mut inode = layout(
        "inode",
        24,
        vec![
            field(0, "ino", "u64"),
            field(8, "name_off", "u64"),
            field(16, "name_len", "u32"),
            field(20, "reserved0", "bytes4"),
        ],
    );
    inode.heap_refs = vec![(s("name_off"), s("name_len"))];
    Format {
        spec_schema: 1,
        format_version: Version { major: 0, minor: 1 },
        status: s("UNSTABLE"),
        inputs: vec![s("rules.yaml")],
        endianness: s("little"),
        offset_origin: s("file"),
        acceptance: Acceptance {
            rows: vec![AcceptRow { file_major: 0, file_minor: 1, verdict: s("accept") }],
            otherwise: s("reject"),
        },
        constants: vec![Constant { name: s("HEADER_LEN"), value: 32, doc: s("") }],
        magics: vec![
            Magic { name: s("HEADER_MAGIC"), bytes: vec![0x89, b'D', b'V', b'L', 0x0d, 0x0a, 0x1a, 0x0a], doc: s("") },
            Magic { name: s("TRAILER_MAGIC"), bytes: vec![0x89, b'D', b'V', b'T', 0x0d, 0x0a, 0x1a, 0x0a], doc: s("") },
        ],
        enums: vec![
            Enum {
                name: s("file_type"),
                width: s("u16"),
                mask: None,
                values: vec![value("invalid", 0), value("regular", 1), value("dir", 2)],
            },
            Enum {
                name: s("content_kind"),
                width: s("u16"),
                mask: Some(0xff),
                values: vec![value("invalid", 0), value("extents", 1), value("inherited", 2), value("excluded", 3)],
            },
        ],
        content_kind_by_type: kinds,
        flag_sets: vec![FlagSet {
            name: s("block_flags"),
            width: s("u32"),
            unknown_odd_rule: s("block.unknown_odd_flag"),
            bits: vec![FlagBit { bit: 0, name: s("SKIP"), doc: s("") }],
        }],
        block_types: vec![
            BlockType { id: s("DATA"), status: s("defined"), doc: s("") },
            BlockType { id: s("INDX"), status: s("defined"), doc: s("") },
            BlockType { id: s("CRYP"), status: s("registered_undefined"), doc: s("") },
        ],
        layouts: vec![
            layout(
                "header",
                32,
                vec![
                    field(0, "magic", "bytes8"),
                    field(8, "format_major", "u16"),
                    field(10, "format_minor", "u16"),
                    field(12, "reserved0", "bytes20"),
                ],
            ),
            layout("trailer", 16, vec![field(0, "magic", "bytes8"), field(8, "index_offset", "u64")]),
            block_header,
            layout("data_header", 8, vec![field(0, "ino", "u64")]),
            layout("index_header", 16, vec![field(0, "inode_count", "u64"), field(8, "heap_len", "u64")]),
            inode,
        ],
        index_tables: vec![IndexTable { name: s("inode"), record: Some(s("inode")), count: s("inode_count") }],
        heap: Heap { length_field: s("index_header.heap_len"), offset_origin: s("heap"), follows: s("tables") },
        phases: vec![Phase { name: s("framing"), doc: s("") }, Phase { name: s("index"), doc: s("") }],
        notes: vec![],
    }
}

fn valid_rules() -> Rules {
    Rules {
        rules: vec![
            Rule {
                id: s("block.unknown_odd_flag"),
                level: s("MUST"),
                phase: Some(s("framing")),
                scope: s("file"),
                text: s(""),
                fixtures: vec![s("broken/odd-flag.dvl")],
                no_fixture_because: None,
            },
            Rule {
                id: s("writer.complete_dirs"),
                level: s("SHOULD"),
                phase: None,
                scope: s("writer"),
                text: s(""),
                fixtures: vec![],
                no_fixture_because: Some(s("a writer rule")),
            },
        ],
    }
}

fn listing() -> Result<Vec<String>, String> {
    Ok(vec![s("rules.yaml"), s("format.yaml")])
}

#[test]
fn valid_spec_has_no_problems() {
    assert_eq!(validate(&listing(), &valid_format(), &valid_rules()), vec![]);
}

#[test]
fn unknown_schema_is_refused_before_anything_else() {
    let mut f = valid_format();
    f.spec_schema = 2;
    f.endianness = s("big");
    assert_eq!(
        validate(&Err(s("no dir")), &f, &valid_rules()),
        vec![Problem::SchemaUnknown { found: 2 }]
    );
}

#[test]
fn inputs_are_compared_in_sorted_order() {
    let mut f = valid_format();
    f.inputs = vec![s("z.yaml"), s("rules.yaml"), s("b.yaml")];
    let listing = Ok(vec![s("format.yaml"), s("y.yaml"), s("rules.yaml"), s("a.yaml"), s("a.yaml")]);
    assert_eq!(
        validate(&listing, &f, &valid_rules()),
        vec![
            Problem::UndeclaredInput { name: s("a.yaml") },
            Problem::UndeclaredInput { name: s("y.yaml") },
            Problem::MissingInput { name: s("b.yaml") },
            Problem::MissingInput { name: s("z.yaml") },
        ]
    );
}

#[test]
fn unreadable_dir_is_reported() {
    assert_eq!(
        validate(&Err(s("docs/spec: denied")), &valid_format(), &valid_rules()),
        vec![Problem::SpecDirUnreadable { message: s("docs/spec: denied") }]
    );
}

#[test]
fn header_problems() {
    let mut f = valid_format();
    f.endianness = s("big");
    f.status = s("STABLE");
    assert_eq!(
        validate(&listing(), &f, &valid_rules()),
        vec![Problem::EndiannessUnsupported { endianness: s("big") }, Problem::StatusMismatch]
    );
    let mut g = valid_format();
    g.format_version = Version { major: 1, minor: 0 };
    g.status = s("STABLE");
    g.acceptance.rows.push(AcceptRow { file_major: 1, file_minor: 0, verdict: s("accept") });
    assert_eq!(validate(&listing(), &g, &valid_rules()), vec![]);
}

#[test]
fn acceptance_problems() {
    let mut f = valid_format();
    f.acceptance.otherwise = s("warn");
    f.acceptance.rows = vec![
        AcceptRow { file_major: 0, file_minor: 2, verdict: s("warn") },
        AcceptRow { file_major: 0, file_minor: 2, verdict: s("accept") },
    ];
    assert_eq!(
        validate(&listing(), &f, &valid_rules()),
        vec![
            Problem::OtherwiseNotReject,
            Problem::RowVerdict { major: 0, minor: 2 },
            Problem::RowDuplicated { major: 0, minor: 2 },
            Problem::CurrentNotAccepted,
        ]
    );
}

#[test]
fn constant_and_magic_problems() {
    let mut f = valid_format();
    f.constants.push(Constant { name: s("HEADER_MAGIC"), value: 1, doc: s("") });
    f.constants.push(Constant { name: s("lower_case"), value: 1, doc: s("") });
    f.magics[1].bytes = f.magics[0].bytes.clone();
    f.magics.push(Magic { name: s("SHORT"), bytes: vec![1, 2], doc: s("") });
    assert_eq!(
        validate(&listing(), &f, &valid_rules()),
        vec![
            Problem::NameNotScreamingSnake { name: s("lower_case") },
            Problem::NameDefinedTwice { name: s("HEADER_MAGIC") },
            Problem::MagicLength { name: s("SHORT") },
            Problem::MagicBytesCollide,
        ]
    );
}

#[test]
fn non_ascii_constant_name_is_not_screaming_snake() {
    let mut f = valid_format();
    f.constants[0].name = s("ÉTAT");
    assert_eq!(
        validate(&listing(), &f, &valid_rules()),
        vec![Problem::NameNotScreamingSnake { name: s("ÉTAT") }]
    );
}

#[test]
fn enum_problems() {
    let mut f = valid_format();
    f.enums.push(Enum { name: s("file_type"), width: s("u8"), mask: None, values: vec![] });
    f.enums.push(Enum {
        name: s("wide"),
        width: s("u16"),
        mask: Some(0x0f),
        values: vec![value("first", 1), value("a", 0x10000), value("a", 2), value("b", 1)],
    });
    f.enums[1].values.push(EnumValue { name: s("none"), value: 0, registered_undefined: true, doc: s("") });
    assert_eq!(
        validate(&listing(), &f, &valid_rules()),
        vec![
            Problem::EnumValueDuplicate { name: s("content_kind"), value: s("none") },
            Problem::EnumInvalidRegistered { name: s("content_kind") },
            Problem::EnumDefinedTwice { name: s("file_type") },
            Problem::EnumWidthUnsupported { name: s("file_type"), width: s("u8") },
            Problem::EnumFirstNotInvalid { name: s("wide") },
            Problem::EnumValueTooWide { name: s("wide"), value: s("a"), width: s("u16") },
            Problem::EnumValueOutsideMask { name: s("wide"), value: s("a") },
            Problem::EnumValueDuplicate { name: s("wide"), value: s("a") },
            Problem::EnumValueDuplicate { name: s("wide"), value: s("b") },
        ]
    );
}

#[test]
fn duplicate_name_does_not_claim_its_number() {
    // A value whose name repeats does not take its number, so a later value
    // with that number and a new name is not a duplicate.
    let mut f = valid_format();
    f.enums.push(Enum {
        name: s("e"),
        width: s("u32"),
        mask: None,
        values: vec![value("invalid", 0), value("x", 1), value("x", 7), value("y", 7), value("z", 0x1_0000_0000)],
    });
    assert_eq!(
        validate(&listing(), &f, &valid_rules()),
        vec![
            Problem::EnumValueDuplicate { name: s("e"), value: s("x") },
            Problem::EnumValueTooWide { name: s("e"), value: s("z"), width: s("u32") },
        ]
    );
}

#[test]
fn content_kind_problems() {
    let mut f = valid_format();
    f.content_kind_by_type.insert(s("symlink"), vec![s("invalid"), s("bogus")]);
    f.content_kind_by_type.insert(s("dir"), vec![s("extents"), s("nope")]);
    assert_eq!(
        validate(&listing(), &f, &valid_rules()),
        vec![
            Problem::ContentKindKeys,
            Problem::ContentKindInvalid { file_type: s("dir"), kind: s("nope") },
            Problem::ContentKindInvalid { file_type: s("symlink"), kind: s("invalid") },
            Problem::ContentKindInvalid { file_type: s("symlink"), kind: s("bogus") },
        ]
    );
}

#[test]
fn enums_file_type_and_content_kind_are_required() {
    let mut f = valid_format();
    f.enums[1].name = s("kind");
    assert_eq!(validate(&listing(), &f, &valid_rules()), vec![Problem::EnumsRequired]);
}

#[test]
fn rule_problems() {
    let f = valid_format();
    let mut r = valid_rules();
    r.rules.push(Rule {
        id: s("Bad"),
        level: s("MAY"),
        phase: Some(s("nowhere")),
        scope: s("chain"),
        text: s(""),
        fixtures: vec![],
        no_fixture_because: Some(s("x")),
    });
    r.rules.push(Rule {
        id: s("block.unknown_odd_flag"),
        level: s("MUST"),
        phase: Some(s("framing")),
        scope: s("behaviour"),
        text: s(""),
        fixtures: vec![s("broken/odd-flag.dvl")],
        no_fixture_because: Some(s("")),
    });
    r.rules.push(Rule {
        id: s("block_unknown.odd_flag"),
        level: s("SHOULD"),
        phase: None,
        scope: s("policy"),
        text: s(""),
        fixtures: vec![s("a"), s("a")],
        no_fixture_because: None,
    });
    assert_eq!(
        validate(&listing(), &f, &r),
        vec![
            Problem::RuleIdShape { id: s("Bad") },
            Problem::RuleLevel { id: s("Bad") },
            Problem::RuleNeedsPhase { id: s("Bad") },
            Problem::RuleNeedsFixture { id: s("Bad"), scope: s("chain") },
            Problem::RuleReasonMisplaced { id: s("Bad") },
            Problem::RuleShouldCannotReject { id: s("Bad") },
            Problem::RuleDefinedTwice { id: s("block.unknown_odd_flag") },
            Problem::RuleVariantCollision { id: s("block.unknown_odd_flag") },
            Problem::RuleTakesNoFixtures { id: s("block.unknown_odd_flag"), scope: s("behaviour") },
            Problem::RuleReasonRequired { id: s("block.unknown_odd_flag") },
            Problem::FixtureCitedTwice { fixture: s("broken/odd-flag.dvl") },
            Problem::RuleVariantCollision { id: s("block_unknown.odd_flag") },
            Problem::RuleScopeUnknown { id: s("block_unknown.odd_flag"), scope: s("policy") },
            Problem::FixtureCitedTwice { fixture: s("a") },
            Problem::FlagSetOddRule { set: s("block_flags"), rule: s("block.unknown_odd_flag") },
        ]
    );
}

#[test]
fn rule_id_shapes() {
    let f = valid_format();
    for (id, ok) in [
        ("a.b", true),
        ("a_1.b2.c_", true),
        ("a", false),
        (".a", false),
        ("a.", false),
        ("a..b", false),
        ("a.B", false),
        ("a.é", false),
        ("", false),
    ] {
        let mut r = valid_rules();
        r.rules[1].id = s(id);
        let got = validate(&listing(), &f, &r);
        assert_eq!(got.contains(&Problem::RuleIdShape { id: s(id) }), !ok, "{id:?}");
    }
}

#[test]
fn phase_names_must_be_unique() {
    let mut f = valid_format();
    f.phases.push(Phase { name: s("index"), doc: s("") });
    assert_eq!(validate(&listing(), &f, &valid_rules()), vec![Problem::PhaseNamesRepeat]);
}

#[test]
fn flag_set_problems() {
    let mut f = valid_format();
    f.flag_sets[0].bits.push(FlagBit { bit: 32, name: s("HIGH"), doc: s("") });
    f.flag_sets[0].bits.push(FlagBit { bit: 0, name: s("AGAIN"), doc: s("") });
    f.flag_sets.push(FlagSet { name: s("small"), width: s("u16"), unknown_odd_rule: s("x"), bits: vec![] });
    f.flag_sets.push(FlagSet {
        name: s("writerish"),
        width: s("u32"),
        unknown_odd_rule: s("writer.complete_dirs"),
        bits: vec![],
    });
    assert_eq!(
        validate(&listing(), &f, &valid_rules()),
        vec![
            Problem::FlagBitInvalid { set: s("block_flags"), bit: s("HIGH") },
            Problem::FlagBitInvalid { set: s("block_flags"), bit: s("AGAIN") },
            Problem::FlagSetWidth { name: s("small"), width: s("u16") },
            Problem::FlagSetOddRule { set: s("writerish"), rule: s("writer.complete_dirs") },
        ]
    );
}

#[test]
fn later_rule_with_same_id_decides_the_odd_rule() {
    let f = valid_format();
    let mut r = valid_rules();
    r.rules.push(Rule {
        id: s("block.unknown_odd_flag"),
        level: s("SHOULD"),
        phase: None,
        scope: s("writer"),
        text: s(""),
        fixtures: vec![],
        no_fixture_because: Some(s("r")),
    });
    let got = validate(&listing(), &f, &r);
    assert!(got.contains(&Problem::FlagSetOddRule { set: s("block_flags"), rule: s("block.unknown_odd_flag") }));
}

#[test]
fn block_type_problems() {
    let mut f = valid_format();
    f.block_types[0].status = s("registered_undefined");
    f.block_types.push(BlockType { id: s("indx"), status: s("defined"), doc: s("") });
    f.block_types.push(BlockType { id: s("INDX"), status: s("gone"), doc: s("") });
    f.block_types.push(BlockType { id: s("ÉTAT"), status: s("defined"), doc: s("") });
    assert_eq!(
        validate(&listing(), &f, &valid_rules()),
        vec![
            Problem::BlockTypeShape { id: s("indx") },
            Problem::BlockTypeDefinedTwice { id: s("INDX") },
            Problem::BlockTypeStatus { id: s("INDX"), status: s("gone") },
            Problem::BlockTypeShape { id: s("ÉTAT") },
            Problem::BlockTypeRequired { id: s("DATA") },
        ]
    );
}

#[test]
fn layout_tiling_problems() {
    let mut f = valid_format();
    f.layouts[0].fields[2].off = 11;
    f.layouts[0].fields.push(field(32, "magic", "u24"));
    f.layouts[0].fields.push(field(32, "tail", "u16"));
    f.layouts[0].fields[3].reserved = false;
    assert_eq!(
        validate(&listing(), &f, &valid_rules()),
        vec![
            Problem::FieldOffset { layout: s("header"), field: s("format_minor"), off: 11, end: 10 },
            Problem::FieldOffset { layout: s("header"), field: s("reserved0"), off: 12, end: 13 },
            Problem::FieldReserved { layout: s("header"), field: s("reserved0") },
            Problem::FieldDefinedTwice { layout: s("header"), field: s("magic") },
            Problem::FieldTypeUnknown { layout: s("header"), field: s("magic"), ty: s("u24") },
            Problem::LayoutSize { layout: s("header"), end: 34, size: 32 },
        ]
    );
}

#[test]
fn layout_reference_problems() {
    let mut f = valid_format();
    f.layouts[2].fields[0].flags = Some(s("nope"));
    f.layouts[2].fields[1].enum_ = Some(s("content_kind"));
    f.layouts[2].fields[1].ty = s("u32");
    f.layouts[2].fields[2].off = 8;
    f.layouts[2].size = 12;
    f.layouts[5].heap_refs.push((s("name_len"), s("ino")));
    f.layouts.push(layout("trailer", 0, vec![]));
    f.layouts.remove(3);
    assert_eq!(
        validate(&listing(), &f, &valid_rules()),
        vec![
            Problem::FieldFlags { layout: s("block_header"), field: s("flags"), flag_set: s("nope") },
            Problem::FieldEnum { layout: s("block_header"), field: s("file_type"), enum_name: s("content_kind") },
            Problem::LayoutSize { layout: s("block_header"), end: 10, size: 12 },
            Problem::LayoutAlignment { layout: s("block_header"), size: 12 },
            Problem::HeapRef { layout: s("inode"), offset_field: s("name_len"), length_field: s("ino") },
            Problem::LayoutDefinedTwice { name: s("trailer") },
            Problem::LayoutRequired { name: s("data_header") },
        ]
    );
}

#[test]
fn index_table_problems() {
    let mut f = valid_format();
    f.index_tables.push(IndexTable { name: s("inode"), record: Some(s("dirent")), count: s("dirent_count") });
    f.index_tables.push(IndexTable { name: s("heapish"), record: None, count: s("heap_len") });
    f.heap.length_field = s("index_header.heap_size");
    assert_eq!(
        validate(&listing(), &f, &valid_rules()),
        vec![
            Problem::IndexTableTwice { name: s("inode") },
            Problem::IndexTableCount { name: s("inode"), count: s("dirent_count") },
            Problem::IndexTableRecord { name: s("inode"), record: s("dirent") },
            Problem::HeapLengthField,
        ]
    );
}

#[test]
fn without_index_header_index_tables_are_not_checked() {
    let mut f = valid_format();
    f.layouts.retain(|l| l.name != "index_header");
    f.index_tables.push(IndexTable { name: s("inode"), record: None, count: s("x") });
    assert_eq!(
        validate(&listing(), &f, &valid_rules()),
        vec![Problem::LayoutRequired { name: s("index_header") }]
    );
}

#[test]
fn lookups_take_the_first_match() {
    let mut f = valid_format();
    f.layouts.push(layout("header", 8, vec![]));
    assert_eq!(f.layout("header").map(|l| l.size), Some(32));
    assert!(f.layout("missing").is_none());
    assert_eq!(f.enum_("content_kind").map(|e| e.values.len()), Some(4));
    assert_eq!(f.flag_set("block_flags").map(|s| s.bits.len()), Some(1));
    assert!(f.flag_set("x").is_none());
    assert_eq!(f.layouts[0].field("format_minor").map(|x| x.off), Some(10));
    assert!(f.layouts[0].field("nope").is_none());
    assert_eq!(f.enums[1].value("inherited"), Some(2));
    assert_eq!(f.enums[1].value("nope"), None);
}

#[test]
fn clean_spec_layouts_tile() {
    let f = valid_format();
    let r = valid_rules();
    assert!(validate(&listing(), &f, &r).is_empty());
    for l in &f.layouts {
        let mut end = 0u64;
        for fl in &l.fields {
            assert_eq!(fl.off, end);
            end = fl.off + diavolo_format::schema::type_size(&fl.ty).unwrap();
        }
        assert_eq!(end, l.size);
        assert_eq!(l.size % 8, 0);
    }
    let mut all: Vec<&String> = r.rules.iter().flat_map(|x| x.fixtures.iter()).collect();
    let n = all.len();
    all.sort();
    all.dedup();
    assert_eq!(all.len(), n);
}
