use binform::{
    endian_of_native_reading, read_plan, write_plan, field_steps, Behaviour, Binding,
    DeriveError, Direction, Endian, FieldDecl, LittleEndian, BigEndian, PlanBody, Shape,
    Step, ToBytes, TypeBody, TypeDecl, VariantDecl, WriteError,
};

fn s(t: &str) -> String {
    t.to_string()
}

fn field(name: Option<&str>, ty: &str) -> FieldDecl {
    FieldDecl {
        name: name.map(s),
        ty: s(ty),
        endian: None,
        len: None,
        read: None,
        write: None,
        before: None,
        after: None,
    }
}

fn magic_before() -> Option<Behaviour> {
    Some(Behaviour {
        expect: Some((s("u32"), s("0xCA_FE_BA_BE"))),
        reads: vec![s("skip_padding")],
        writes: vec![s("write_padding")],
    })
}

/// The declaration of the constant pool as its attributes give it.
fn constant_pool_decl() -> TypeDecl {
    let mut entries = field(Some("entries"), "Vec<CPEntry<'a>>");
    entries.len = Some(s("u16"));
    entries.before = Some(Behaviour {
        expect: Some((s("u32"), s("0xCA_FE_BA_BE"))),
        reads: vec![],
        writes: vec![],
    });
    TypeDecl {
        name: s("ConstantPool"),
        endian: Endian::Big,
        tag: None,
        debug: false,
        body: TypeBody::Struct { shape: Shape::Named, fields: vec![entries] },
    }
}

#[test]
fn constant_pool_plan_is_its_verified_format() {
    let expected = vec![
        Step::Expect { ty: s("u32"), value: s("0xCA_FE_BA_BE"), endian: Endian::Big, len: Some(s("u16")) },
        Step::Field {
            binding: Binding::Named(s("entries")),
            ty: s("Vec<CPEntry<'a>>"),
            endian: Endian::Big,
            len: Some(s("u16")),
            method: None,
        },
    ];
    for plan in [read_plan(&constant_pool_decl()), write_plan(&constant_pool_decl())] {
        match plan.unwrap().body {
            PlanBody::Struct { shape, steps } => {
                assert_eq!(shape, Shape::Named);
                assert_eq!(steps, expected);
            }
            other => panic!("unexpected plan {:?}", other),
        }
    }
}

#[test]
fn field_steps_in_declaration_order() {
    let mut a = field(None, "u16");
    a.endian = Some(Endian::Little);
    let mut b = field(None, "Vec<u8>");
    b.len = Some(s("u8"));
    b.read = Some(s("read_bytes"));
    b.write = Some(s("write_bytes"));
    b.before = magic_before();
    let fields = vec![a, b];
    let read = field_steps(&fields, Endian::Big, Direction::Read);
    assert_eq!(
        read,
        vec![
            Step::Field { binding: Binding::Position(0), ty: s("u16"), endian: Endian::Little, len: None, method: None },
            Step::Expect { ty: s("u32"), value: s("0xCA_FE_BA_BE"), endian: Endian::Big, len: Some(s("u8")) },
            Step::Call { method: s("skip_padding"), endian: Endian::Big, len: Some(s("u8")) },
            Step::Field {
                binding: Binding::Position(1),
                ty: s("Vec<u8>"),
                endian: Endian::Big,
                len: Some(s("u8")),
                method: Some(s("read_bytes")),
            },
        ]
    );
    let write = field_steps(&fields, Endian::Big, Direction::Write);
    assert_eq!(write[2], Step::Call { method: s("write_padding"), endian: Endian::Big, len: Some(s("u8")) });
    assert_eq!(
        write[3],
        Step::Field {
            binding: Binding::Position(1),
            ty: s("Vec<u8>"),
            endian: Endian::Big,
            len: Some(s("u8")),
            method: Some(s("write_bytes")),
        }
    );
}

fn entry_enum(tag: Option<&str>) -> TypeDecl {
    let mut other_value = field(Some("value"), "u16");
    other_value.endian = None;
    TypeDecl {
        name: s("CPEntry"),
        endian: Endian::Big,
        tag: tag.map(s),
        debug: false,
        body: TypeBody::Enum {
            variants: vec![
                VariantDecl {
                    name: s("Value"),
                    tag: s("2"),
                    shape: Shape::Unit,
                    fields: vec![],
                    before: magic_before(),
                    after: None,
                },
                VariantDecl {
                    name: s("Other"),
                    tag: s("3"),
                    shape: Shape::Named,
                    fields: vec![other_value, field(Some("extra"), "u16")],
                    before: None,
                    after: None,
                },
            ],
        },
    }
}

#[test]
fn enum_plans_dispatch_on_tags() {
    let read = read_plan(&entry_enum(Some("u8"))).unwrap();
    let write = write_plan(&entry_enum(Some("u8"))).unwrap();
    match (read.body, write.body) {
        (PlanBody::Enum { tag_ty: rt, arms: ra }, PlanBody::Enum { tag_ty: wt, arms: wa }) => {
            assert_eq!(rt, "u8");
            assert_eq!(wt, "u8");
            assert_eq!(ra.len(), 2);
            assert_eq!(ra[0].tag, "2");
            assert_eq!(ra[1].tag, "3");
            // The variant's own behaviour is read, not written.
            assert_eq!(ra[0].steps.len(), 2);
            assert!(wa[0].steps.is_empty());
            assert_eq!(ra[1].steps, wa[1].steps);
            assert_eq!(ra[1].steps.len(), 2);
        }
        _ => panic!("enum plans expected"),
    }
}

#[test]
fn enum_requires_tag() {
    assert!(matches!(read_plan(&entry_enum(None)), Err(DeriveError::MissingTag)));
    assert!(matches!(write_plan(&entry_enum(None)), Err(DeriveError::MissingTag)));
    assert!(read_plan(&constant_pool_decl()).is_ok());
}

#[test]
fn native_reading_decides_the_order() {
    assert_eq!(endian_of_native_reading(1), Endian::Little);
    assert_eq!(endian_of_native_reading(256), Endian::Big);
    assert_eq!(Endian::default(), endian_of_native_reading(u16::from_ne_bytes([1, 0])));
}

#[test]
fn signed_length_prefixes() {
    let v: Vec<u8> = vec![7, 8, 9];
    let mut out = Vec::new();
    <Vec<u8> as ToBytes<BigEndian, i8>>::to_bytes(&v, &mut out).unwrap();
    <Vec<u8> as ToBytes<LittleEndian, i16>>::to_bytes(&v, &mut out).unwrap();
    <Vec<u8> as ToBytes<BigEndian, i32>>::to_bytes(&v, &mut out).unwrap();
    <Vec<u8> as ToBytes<BigEndian, i64>>::to_bytes(&v, &mut out).unwrap();
    assert_eq!(
        out,
        vec![3, 7, 8, 9, 3, 0, 7, 8, 9, 0, 0, 0, 3, 7, 8, 9, 0, 0, 0, 0, 0, 0, 0, 3, 7, 8, 9]
    );
    let long: Vec<u8> = vec![0; 128];
    let mut out = Vec::new();
    assert!(matches!(
        <Vec<u8> as ToBytes<BigEndian, i8>>::to_bytes(&long, &mut out),
        Err(WriteError::TooLarge(128))
    ));
    assert!(out.is_empty());
}
