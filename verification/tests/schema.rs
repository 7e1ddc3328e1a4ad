use corvid::schema::diff::diff;
use corvid::schema::infomodel::{elements, lookup, name_of, width_ok};
use corvid::schema::{Catalog, FieldSpec, FieldType, Layout, Placement, SchemaRegistry, Template, TemplateCache};
use corvid::schema::Schema;

fn sample() -> Schema {
    Schema::new(
        7,
        2,
        vec![FieldSpec::named(1, FieldType::U32, 0, "src"), FieldSpec::named(2, FieldType::VarBytes, 64, "payload")],
    )
}

#[test]
fn catalog_roundtrip() {
    let mut cat = Catalog::new();
    cat.push(sample());
    let bytes = cat.encode();
    let back = Catalog::decode(&bytes).unwrap();
    assert_eq!(back.len(), 1);
    let s = back.get(7).unwrap();
    assert_eq!(s.fields.len(), 2);
    assert_eq!(s.fields[0].name, "src");
}

#[test]
fn catalog_roundtrip_keeps_every_field() {
    let mut cat = Catalog::new();
    cat.push(sample());
    cat.push(Schema::new(3, 1, vec![FieldSpec::new(4, FieldType::Fixed, 12)]));
    let back = Catalog::decode(&cat.encode()).unwrap();
    assert_eq!(back.len(), 2);
    let s = back.get(7).unwrap();
    assert_eq!(s.version, 2);
    assert_eq!(s.fields[1].ty, FieldType::VarBytes);
    assert_eq!(s.fields[1].width, 64);
    assert_eq!(s.fields[1].name, "payload");
    assert_eq!(back.get(3).unwrap().fields[0].width, 12);
}

#[test]
fn higher_version_wins() {
    let mut cat = Catalog::new();
    cat.push(Schema::new(1, 1, vec![]));
    cat.push(Schema::new(1, 3, vec![FieldSpec::new(9, FieldType::U8, 0)]));
    assert_eq!(cat.len(), 1);
    assert_eq!(cat.get(1).unwrap().version, 3);
}

#[test]
fn lower_version_is_ignored() {
    let mut cat = Catalog::new();
    cat.push(Schema::new(1, 3, vec![FieldSpec::new(9, FieldType::U8, 0)]));
    cat.push(Schema::new(1, 2, vec![]));
    assert_eq!(cat.get(1).unwrap().version, 3);
    assert_eq!(cat.get(1).unwrap().fields.len(), 1);
}

#[test]
fn bad_magic_rejected() {
    assert!(Catalog::decode(b"XXXX\x01\x00\x00").is_err());
}

#[test]
fn appended_is_compatible() {
    let old = Schema::new(1, 1, vec![FieldSpec::new(1, FieldType::U32, 0)]);
    let new = Schema::new(1, 2, vec![FieldSpec::new(1, FieldType::U32, 0), FieldSpec::new(2, FieldType::U16, 0)]);
    let d = diff(&old, &new);
    assert!(d.is_backward_compatible());
    assert_eq!(d.breaking_changes(), 0);
}

#[test]
fn retype_is_breaking() {
    let old = Schema::new(1, 1, vec![FieldSpec::new(1, FieldType::U32, 0)]);
    let new = Schema::new(1, 2, vec![FieldSpec::new(1, FieldType::U64, 0)]);
    let d = diff(&old, &new);
    assert_eq!(d.breaking_changes(), 1);
}

#[test]
fn identical_schemas_have_empty_diff() {
    let a = Schema::new(1, 1, vec![FieldSpec::new(1, FieldType::U32, 0)]);
    let b = Schema::new(1, 1, vec![FieldSpec::new(1, FieldType::U32, 0)]);
    let d = diff(&a, &b);
    assert!(d.is_empty());
    assert!(d.is_backward_compatible());
}

#[test]
fn code_roundtrip() {
    for code in 1u8..=0x0A {
        let t = FieldType::from_code(code).unwrap();
        assert_eq!(t.code(), code);
    }
    assert!(FieldType::from_code(0xFF).is_err());
}

#[test]
fn slot_widths() {
    assert_eq!(FieldSpec::new(1, FieldType::U32, 0).row_slot_width(), 4);
    assert_eq!(FieldSpec::new(2, FieldType::Fixed, 12).row_slot_width(), 12);
    assert_eq!(FieldSpec::new(3, FieldType::VarBytes, 99).row_slot_width(), 8);
}

#[test]
fn table_is_sorted() {
    let table = elements();
    for w in table.windows(2) {
        assert!(w[0].id < w[1].id, "elements out of order at {}", w[0].id);
    }
}

#[test]
fn lookups() {
    assert_eq!(name_of(8), "sourceIPv4Address");
    assert_eq!(name_of(9999), "unknown");
    assert!(lookup(82).unwrap().ty == FieldType::Utf8);
}

#[test]
fn width_check_follows_the_table() {
    assert!(width_ok(8, FieldType::U32, 4));
    assert!(!width_ok(8, FieldType::U64, 8));
}

#[test]
fn fixed_layout() {
    let s = Schema::new(
        1,
        1,
        vec![FieldSpec::new(1, FieldType::U32, 0), FieldSpec::new(2, FieldType::U16, 0), FieldSpec::new(3, FieldType::U8, 0)],
    );
    let l = Layout::compute(&s);
    assert!(l.is_fully_fixed());
    assert_eq!(l.offset_of(1), Some(4));
    assert_eq!(l.offset_of(2), Some(6));
    assert_eq!(l.min_record_len(), 7);
}

#[test]
fn variable_breaks_layout() {
    let s = Schema::new(
        1,
        1,
        vec![
            FieldSpec::new(1, FieldType::U32, 0),
            FieldSpec::new(2, FieldType::VarBytes, 64),
            FieldSpec::new(3, FieldType::U16, 0),
        ],
    );
    let l = Layout::compute(&s);
    assert!(!l.is_fully_fixed());
    assert_eq!(l.offset_of(0), Some(0));
    assert_eq!(l.placement(2), Some(Placement::Dynamic));
}

#[test]
fn define_then_update_bumps_version() {
    let mut r = SchemaRegistry::new();
    r.define(5, vec![FieldSpec::new(1, FieldType::U32, 0)]).unwrap();
    assert_eq!(r.current_version(5), Some(1));
    let v = r.update(5, vec![FieldSpec::new(1, FieldType::U64, 0)]).unwrap();
    assert_eq!(v, 2);
    assert_eq!(r.get(5).unwrap().row_width, 8);
}

#[test]
fn update_unknown_errors() {
    let mut r = SchemaRegistry::new();
    assert!(r.update(9, vec![FieldSpec::new(1, FieldType::U8, 0)]).is_err());
}

#[test]
fn interning_dedups() {
    let mut r = SchemaRegistry::new();
    let a = r.intern("src");
    let b = r.intern("src");
    assert_eq!(a, b);
    assert_eq!(r.resolve_name(a), Some("src"));
}

#[test]
fn removed_schema_is_gone() {
    let mut r = SchemaRegistry::new();
    r.define(5, vec![FieldSpec::new(1, FieldType::U32, 0)]).unwrap();
    assert_eq!(r.len(), 1);
    r.remove(5);
    assert!(r.get(5).is_none());
    assert!(r.is_empty());
}

fn tmpl(id: u16) -> Template {
    Template::new(id, 1, vec![FieldSpec::new(1, FieldType::U32, 0)])
}

#[test]
fn redefinition_bumps_generation() {
    let mut c = TemplateCache::new(8);
    c.define(tmpl(10));
    c.define(tmpl(10));
    assert_eq!(c.peek(10).unwrap().generation, 2);
}

#[test]
fn lru_eviction_returns_victim() {
    let mut c = TemplateCache::new(2);
    assert!(c.define(tmpl(1)).is_empty());
    assert!(c.define(tmpl(2)).is_empty());
    let _ = c.get(1);
    let evicted = c.define(tmpl(3));
    assert_eq!(evicted, vec![2]);
    assert!(c.peek(2).is_none());
    assert_eq!(c.evictions(), 1);
}

#[test]
fn withdrawn_template_is_gone() {
    let mut c = TemplateCache::new(4);
    c.define(tmpl(1));
    c.define(tmpl(2));
    c.withdraw(1);
    assert!(c.peek(1).is_none());
    assert_eq!(c.len(), 1);
}
