use zhi_enum::{
    derive_enum_convert, derive_enum_try_convert, parse_repr, Disc, EnumDecl, Explicit, Repr,
    Schema, SchemaError, Value, VariantDecl,
};

fn plain(name: &str) -> VariantDecl {
    VariantDecl { name: name.to_string(), explicit: None, catch_all: false }
}

fn literal(name: &str, k: u128) -> VariantDecl {
    VariantDecl { name: name.to_string(), explicit: Some(Explicit::Literal(k)), catch_all: false }
}

fn expr(name: &str, x: u128) -> VariantDecl {
    VariantDecl { name: name.to_string(), explicit: Some(Explicit::Expr(x)), catch_all: false }
}

fn catch_all(name: &str) -> VariantDecl {
    VariantDecl { name: name.to_string(), explicit: None, catch_all: true }
}

fn decl(repr: Option<&str>, variants: Vec<VariantDecl>) -> EnumDecl {
    EnumDecl {
        ident: "Number".to_string(),
        repr: repr.map(|r| r.to_string()),
        variants,
    }
}

fn numbers(repr: &str) -> EnumDecl {
    decl(
        Some(repr),
        vec![
            plain("Zero"),
            plain("One"),
            plain("Two"),
            plain("Three"),
            plain("Four"),
            literal("Ten", 10),
            plain("Eleven"),
            expr("Twenty", 10 + 10),
            plain("TwentyOne"),
            catch_all("Unknown"),
        ],
    )
}

fn keys(d: &EnumDecl) -> Vec<u128> {
    let s = Schema::new(d).unwrap();
    s.normals.iter().map(|n| n.disc.realize(s.repr)).collect()
}

#[test]
fn test_test() {
    let c = derive_enum_convert(&decl(
        Some("u8"),
        vec![
            plain("Zero"),
            plain("One"),
            plain("Two"),
            plain("Three"),
            plain("Four"),
            catch_all("Unknown"),
        ],
    ))
    .unwrap();
    let zero = c.table.variant("Zero").unwrap();
    assert_eq!(u8::try_from(c.to_int(zero)).unwrap(), 0u8)
}

#[test]
fn test() {
    let c = derive_enum_convert(&numbers("u8")).unwrap();
    let t = derive_enum_try_convert(&numbers("u8")).unwrap();
    let three = c.table.variant("Three").unwrap();
    let ten = c.table.variant("Ten").unwrap();
    let eleven = c.table.variant("Eleven").unwrap();
    let twenty_one = c.table.variant("TwentyOne").unwrap();
    assert_eq!(u8::try_from(c.to_int(three)).unwrap(), 3u8);
    assert_eq!(u8::try_from(t.try_to_int(three).unwrap()).unwrap(), 3u8);
    assert_eq!(u8::try_from(c.to_int(ten)).unwrap(), 10u8);
    assert_eq!(u8::try_from(t.try_to_int(ten).unwrap()).unwrap(), 10u8);
    assert_eq!(u8::try_from(c.to_int(eleven)).unwrap(), 11u8);
    assert_eq!(u8::try_from(t.try_to_int(eleven).unwrap()).unwrap(), 11u8);
    assert_eq!(u8::try_from(c.to_int(twenty_one)).unwrap(), 21u8);
    assert_eq!(u8::try_from(t.try_to_int(twenty_one).unwrap()).unwrap(), 21u8);

    assert_eq!(c.from_int(3u8 as u128), three);
    assert_eq!(t.try_from_int(21u8 as u128).unwrap(), twenty_one)
}

#[test]
fn default_numbering_counts_from_zero() {
    let d = decl(Some("i16"), vec![plain("A"), plain("B"), catch_all("Other"), plain("C")]);
    assert_eq!(keys(&d), vec![0, 1, 2]);
    let s = Schema::new(&d).unwrap();
    assert_eq!(s.normals[2].disc, Disc::Literal(2));
}

#[test]
fn explicit_literal_restarts_numbering() {
    let d = decl(
        Some("u8"),
        vec![
            plain("Zero"),
            plain("One"),
            plain("Two"),
            plain("Three"),
            plain("Four"),
            literal("Ten", 10),
            plain("Eleven"),
        ],
    );
    assert_eq!(keys(&d), vec![0, 1, 2, 3, 4, 10, 11]);
    let s = Schema::new(&d).unwrap();
    assert_eq!(s.normals[6].disc, Disc::Literal(11));
    assert!(!s.normals[6].disc.have_base());
}

#[test]
fn expression_base_on_every_representation() {
    for r in [
        "i8", "i16", "i32", "i64", "i128", "isize", "u8", "u16", "u32", "u64", "u128", "usize",
    ] {
        let ks = keys(&numbers(r));
        assert_eq!(ks, vec![0, 1, 2, 3, 4, 10, 11, 20, 21], "representation {}", r);
    }
    let s = Schema::new(&numbers("u8")).unwrap();
    assert_eq!(s.normals[7].disc, Disc::Offset { base: 20, offset: 0 });
    assert_eq!(s.normals[8].disc, Disc::Offset { base: 20, offset: 1 });
    assert!(s.normals[8].disc.have_base());
}

#[test]
fn literal_on_wide_representation_becomes_base() {
    let d = decl(Some("u64"), vec![literal("Five", 5), plain("Six")]);
    let s = Schema::new(&d).unwrap();
    assert_eq!(s.normals[0].disc, Disc::Offset { base: 5, offset: 0 });
    assert_eq!(s.normals[1].disc, Disc::Offset { base: 5, offset: 1 });
    assert_eq!(keys(&d), vec![5, 6]);
}

#[test]
fn expression_base_wraps_around() {
    let d = decl(Some("u8"), vec![expr("Max", 255), plain("Next"), plain("After")]);
    assert_eq!(keys(&d), vec![255, 0, 1]);
    // -1 as an i8 bit pattern
    let d = decl(Some("i8"), vec![expr("MinusOne", 0xff), plain("Zero")]);
    assert_eq!(keys(&d), vec![0xff, 0]);
    let d = decl(Some("u128"), vec![expr("Max", u128::MAX), plain("Next")]);
    assert_eq!(keys(&d), vec![u128::MAX, 0]);
    let d = decl(Some("u16"), vec![expr("Big", 0x1_0005), plain("Next")]);
    assert_eq!(keys(&d), vec![5, 6]);
}

#[test]
fn round_trip_every_normal_variant() {
    let c = derive_enum_convert(&numbers("i32")).unwrap();
    for i in 0..9usize {
        let v = Value::Normal(i);
        assert_eq!(c.from_int(c.to_int(v)), v);
    }
}

#[test]
fn catch_all_keeps_the_integer() {
    let c = derive_enum_convert(&numbers("u8")).unwrap();
    for r in [5u128, 12, 19, 22, 200, 255] {
        let v = c.from_int(r);
        assert_eq!(v, Value::CatchAll(r));
        assert_eq!(c.to_int(v), r);
    }
    let t = derive_enum_try_convert(&numbers("u8")).unwrap();
    assert_eq!(t.try_from_int(200), Ok(Value::CatchAll(200)));
    assert_eq!(t.try_to_int(Value::CatchAll(200)), Ok(200));
    assert!(t.try_from_int(256).is_err());
}

#[test]
fn without_catch_all_unknown_integers_fail() {
    let d = decl(Some("u8"), vec![plain("A"), plain("B"), literal("C", 7)]);
    let t = derive_enum_try_convert(&d).unwrap();
    assert_eq!(t.try_from_int(1), Ok(Value::Normal(1)));
    assert_eq!(t.try_from_int(7), Ok(Value::Normal(2)));
    for r in [2u128, 6, 8, 255] {
        let e = t.try_from_int(r).unwrap_err();
        assert_eq!(e.message(), "unknown variant");
    }
    assert!(t.try_to_int(Value::CatchAll(2)).is_err());
    assert!(t.try_to_int(Value::Normal(3)).is_err());
}

#[test]
fn duplicate_discriminant_first_declared_wins() {
    let d = decl(Some("u8"), vec![plain("A"), plain("B"), literal("C", 1)]);
    let c = derive_enum_convert(&d).unwrap();
    assert_eq!(c.to_int(Value::Normal(2)), 1);
    assert_eq!(c.from_int(1), Value::Normal(1));
}

#[test]
fn duplicate_names_are_refused() {
    let d = decl(Some("u8"), vec![plain("A"), plain("B"), plain("A")]);
    assert_eq!(derive_enum_convert(&d).unwrap_err(), SchemaError::DuplicateVariant(2));
    let d = decl(Some("u8"), vec![catch_all("A"), plain("B"), plain("A")]);
    assert_eq!(derive_enum_try_convert(&d).unwrap_err(), SchemaError::DuplicateVariant(2));
    let d = decl(Some("u8"), vec![plain("A"), catch_all("A")]);
    assert_eq!(Schema::new(&d).unwrap_err(), SchemaError::DuplicateVariant(1));
}

#[test]
fn second_catch_all_is_refused() {
    let d = decl(Some("u8"), vec![catch_all("X"), plain("A"), catch_all("Y"), plain("A")]);
    assert_eq!(Schema::new(&d).unwrap_err(), SchemaError::MultipleCatchAll(2));
    let d = decl(Some("u8"), vec![catch_all("X"), plain("A"), catch_all("X")]);
    assert_eq!(Schema::new(&d).unwrap_err(), SchemaError::MultipleCatchAll(2));
    let d = decl(Some("u8"), vec![plain("X"), catch_all("X")]);
    assert_eq!(Schema::new(&d).unwrap_err(), SchemaError::DuplicateVariant(1));
}

#[test]
fn representation_errors() {
    let d = decl(Some("C"), vec![plain("A")]);
    assert_eq!(Schema::new(&d).unwrap_err(), SchemaError::UnsupportedRepresentation);
    let d = decl(Some("f32"), vec![plain("A")]);
    assert_eq!(derive_enum_convert(&d).unwrap_err(), SchemaError::UnsupportedRepresentation);
    let d = decl(None, vec![plain("A")]);
    assert_eq!(derive_enum_try_convert(&d).unwrap_err(), SchemaError::MissingRepresentation);
    let d = decl(None, vec![plain("A"), plain("A")]);
    assert_eq!(Schema::new(&d).unwrap_err(), SchemaError::MissingRepresentation);
}

#[test]
fn literals_out_of_range_become_the_base() {
    let d = decl(Some("u8"), vec![plain("A"), literal("B", 256), plain("C")]);
    let s = Schema::new(&d).unwrap();
    assert_eq!(s.normals[1].disc, Disc::Offset { base: 256, offset: 0 });
    assert_eq!(s.normals[2].disc, Disc::Offset { base: 256, offset: 1 });
    assert_eq!(keys(&d), vec![0, 0, 1]);
    let d = decl(Some("u8"), vec![literal("A", 5), literal("B", 300), plain("C")]);
    let s = Schema::new(&d).unwrap();
    assert_eq!(s.normals[0].disc, Disc::Literal(5));
    assert_eq!(s.normals[1].disc, Disc::Offset { base: 300, offset: 0 });
    assert_eq!(keys(&d), vec![5, 44, 45]);
    // 128 does not fit an i8: it becomes the base, the bit pattern of -128
    let d = decl(Some("i8"), vec![literal("A", 128), plain("B")]);
    assert_eq!(keys(&d), vec![0x80, 0x81]);
    let d = decl(Some("u64"), vec![literal("A", 1u128 << 64), plain("B")]);
    let s = Schema::new(&d).unwrap();
    assert_eq!(s.normals[0].disc, Disc::Offset { base: 1u128 << 64, offset: 0 });
    assert_eq!(keys(&d), vec![0, 1]);
    let d = decl(Some("i8"), vec![literal("A", 127)]);
    assert_eq!(keys(&d), vec![127]);
}

#[test]
fn sequential_numbering_wraps_past_the_range() {
    let d = decl(Some("u8"), vec![literal("A", 255), plain("B"), plain("C")]);
    let s = Schema::new(&d).unwrap();
    assert_eq!(s.normals[1].disc, Disc::Literal(256));
    assert_eq!(keys(&d), vec![255, 0, 1]);
    let d = decl(Some("i8"), vec![literal("A", 127), plain("B")]);
    assert_eq!(keys(&d), vec![127, 0x80]);
}

#[test]
fn platform_sized_representations() {
    assert_eq!(parse_repr("isize"), Some(Repr::Isize));
    assert_eq!(parse_repr("usize"), Some(Repr::Usize));
    assert!(!Repr::Isize.is_computable());
    assert!(!Repr::Usize.is_computable());
    assert_eq!(Repr::Usize.max(), usize::MAX as u128);
    assert_eq!(Repr::Isize.max(), isize::MAX as u128);
    assert_eq!(Repr::Usize.wrapping_add(usize::MAX as u128, 1), 0);
    let d = decl(Some("usize"), vec![plain("A"), literal("Ten", 10), plain("Eleven")]);
    let s = Schema::new(&d).unwrap();
    assert_eq!(s.normals[0].disc, Disc::Literal(0));
    assert_eq!(s.normals[1].disc, Disc::Offset { base: 10, offset: 0 });
    assert_eq!(keys(&d), vec![0, 10, 11]);
    let c = derive_enum_convert(&numbers("isize")).unwrap();
    assert_eq!(c.to_int(c.table.variant("TwentyOne").unwrap()), 21);
}

#[test]
fn representation_tokens() {
    assert_eq!(parse_repr("u8"), Some(Repr::U8));
    assert_eq!(parse_repr("i128"), Some(Repr::I128));
    assert_eq!(parse_repr("u128"), Some(Repr::U128));
    assert_eq!(parse_repr("u"), None);
    assert_eq!(parse_repr("u88"), None);
    assert_eq!(parse_repr(""), None);
    assert!(Repr::U32.is_computable());
    assert!(!Repr::U64.is_computable());
    assert!(Repr::I64.is_computable());
    assert_eq!(Repr::I8.max(), 127);
    assert_eq!(Repr::U16.wrapping_add(0xffff, 2), 1);
}

#[test]
fn lookup_by_name() {
    let c = derive_enum_convert(&numbers("u8")).unwrap();
    assert_eq!(c.table.variant("Twenty"), Some(Value::Normal(7)));
    assert_eq!(c.table.variant("Unknown"), None);
    assert_eq!(c.table.repr(), Repr::U8);
}
