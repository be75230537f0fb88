use iffi::{
    discriminants, into, try_from, BitPattern, BitRanges, Error, ErrorKind, IntKind, Layout,
    MaybeInvalid, Nicheless, OneNiche, Shape, Variant,
};

fn structure(fields: Vec<Shape>) -> Shape {
    Shape::Struct { fields, align: 0 }
}

fn variant(discriminant: Option<u128>, fields: Vec<Shape>) -> Variant {
    Variant { discriminant, fields }
}

fn invalid_bits(bits: &[u8], first: Vec<u8>, last: Vec<u8>) -> ErrorKind {
    ErrorKind::InvalidBitPattern {
        bits: BitPattern::from_le(bits),
        valid: BitRanges::from_le(&[(first, last)]),
    }
}

fn check(shape: &Shape, bytes: &[u8]) -> Result<(), Error> {
    try_from(shape, MaybeInvalid::from_bytes(bytes)).map(|_| ())
}

fn roundtrip(shape: &Shape, bytes: &[u8]) {
    let value = match try_from(shape, MaybeInvalid::from_bytes(bytes)) {
        Ok(v) => v,
        Err(e) => panic!("expected a well-defined value, got {:?}", e),
    };
    assert_eq!(value.as_bytes(), bytes);
    let block = into(value);
    assert_eq!(block.as_bytes(), bytes);
    match try_from(shape, block) {
        Ok(again) => assert_eq!(again.as_bytes(), bytes),
        Err(e) => panic!("round trip failed: {:?}", e),
    }
}

/// `repr(isize, align(1024))` enum { A, B, D(u32) = 150, E { a: u16, b: NonZeroU8 } },
/// on a target with 64-bit `isize`.
fn ta() -> Shape {
    Shape::Enum {
        name: "TA",
        universe: "MaybeInvalid<TA>",
        tag: IntKind::I64,
        variants: vec![
            variant(None, vec![]),
            variant(None, vec![]),
            variant(Some(150), vec![Shape::Int(IntKind::U32)]),
            variant(None, vec![Shape::Int(IntKind::U16), Shape::NonZero(IntKind::U8)]),
        ],
        align: 1024,
    }
}

fn ta_bytes(tag: u8, payload: &[(usize, u8)]) -> Vec<u8> {
    let mut b = vec![0u8; 1024];
    b[0] = tag;
    for &(at, byte) in payload {
        b[at] = byte;
    }
    b
}

fn unit_a() -> Shape {
    structure(vec![])
}

fn tuple_b() -> Shape {
    structure(vec![unit_a()])
}

fn named_c() -> Shape {
    structure(vec![tuple_b()])
}

/// `repr(u8)` enum { A(A), B(B), C(C), D { c: C }, E }
fn enum_d() -> Shape {
    Shape::Enum {
        name: "D",
        universe: "MaybeInvalid<D>",
        tag: IntKind::U8,
        variants: vec![
            variant(None, vec![unit_a()]),
            variant(None, vec![tuple_b()]),
            variant(None, vec![named_c()]),
            variant(None, vec![named_c()]),
            variant(None, vec![]),
        ],
        align: 0,
    }
}

fn deep(levels: usize) -> Shape {
    let mut s = Shape::NonZero(IntKind::U8);
    for _ in 0..levels {
        s = structure(vec![s]);
    }
    s
}

#[test]
fn conversions_fails() {
    let nz8 = Shape::NonZero(IntKind::U8);
    match check(&nz8, &[0]) {
        Err(Error { error, .. }) => assert_eq!(error, invalid_bits(&[0], vec![1], vec![0xff])),
        _ => panic!("expected error"),
    }

    let nz32 = Shape::NonZero(IntKind::U32);
    match check(&nz32, &[0; 4]) {
        Err(Error { error, .. }) => assert_eq!(
            error,
            invalid_bits(&[0; 4], vec![1, 0, 0, 0], vec![0xff, 0xff, 0xff, 0xff])
        ),
        _ => panic!("expected error"),
    }
}

#[test]
fn derive_iffi() {
    // repr(C) struct { a: u8, b: NonZeroU8, c: u8 }
    let a = structure(vec![
        Shape::Int(IntKind::U8),
        Shape::NonZero(IntKind::U8),
        Shape::Int(IntKind::U8),
    ]);
    assert_eq!(a.layout(), Some(Layout { size: 3, align: 1 }));

    let ta = ta();
    assert_eq!(ta.layout(), Some(Layout { size: 1024, align: 1024 }));
    roundtrip(&ta, &ta_bytes(0, &[]));
    roundtrip(&ta, &ta_bytes(1, &[]));
    roundtrip(&ta, &ta_bytes(150, &[(8, 5)]));
    roundtrip(&ta, &ta_bytes(151, &[(8, 100), (10, 3)]));
}

#[test]
fn derive_generics() {
    // repr(C) struct A<T, U> { b: T, a: PhantomData<U> }, with T = NonZeroU16
    let a = structure(vec![Shape::NonZero(IntKind::U16), structure(vec![])]);
    assert_eq!(a.layout(), Some(Layout { size: 2, align: 2 }));
    roundtrip(&a, &[7, 0]);
}

#[test]
fn nested() {
    roundtrip(&unit_a(), &[]);
    roundtrip(&tuple_b(), &[]);
    roundtrip(&named_c(), &[]);
    let d = enum_d();
    assert_eq!(d.layout(), Some(Layout { size: 1, align: 1 }));
    for tag in 0u8..5 {
        roundtrip(&d, &[tag]);
    }

    let deep8 = deep(8);
    roundtrip(&deep8, &[5]);

    let invalid = MaybeInvalid::zeroed(&deep8);
    assert_eq!(invalid.as_bytes(), &[0u8][..]);
    match try_from(&deep8, invalid) {
        Err(e) => assert_eq!(
            e,
            Error {
                error: invalid_bits(&[0], vec![1], vec![0xff]),
                from: "MaybeInvalid<NonZeroU8>",
                into: "NonZeroU8",
            }
        ),
        Ok(_) => panic!("expected error"),
    }
}

#[test]
fn nonzero_rejects_only_zero_at_every_width() {
    let kinds = [
        (IntKind::U8, 1usize, "NonZeroU8"),
        (IntKind::U16, 2, "NonZeroU16"),
        (IntKind::U32, 4, "NonZeroU32"),
        (IntKind::U64, 8, "NonZeroU64"),
        (IntKind::U128, 16, "NonZeroU128"),
        (IntKind::I8, 1, "NonZeroI8"),
        (IntKind::I16, 2, "NonZeroI16"),
        (IntKind::I32, 4, "NonZeroI32"),
        (IntKind::I64, 8, "NonZeroI64"),
        (IntKind::I128, 16, "NonZeroI128"),
    ];
    for (kind, width, name) in kinds {
        let shape = Shape::NonZero(kind);
        assert_eq!(shape.layout(), Some(Layout { size: width, align: width }));
        let zero = vec![0u8; width];
        let mut one = vec![0u8; width];
        one[0] = 1;
        let max = vec![0xffu8; width];
        let mut top = vec![0u8; width];
        top[width - 1] = 0x80;
        let expected = Error {
            error: invalid_bits(&zero, one.clone(), max.clone()),
            from: match name {
                "NonZeroU8" => "MaybeInvalid<NonZeroU8>",
                "NonZeroU16" => "MaybeInvalid<NonZeroU16>",
                "NonZeroU32" => "MaybeInvalid<NonZeroU32>",
                "NonZeroU64" => "MaybeInvalid<NonZeroU64>",
                "NonZeroU128" => "MaybeInvalid<NonZeroU128>",
                "NonZeroI8" => "MaybeInvalid<NonZeroI8>",
                "NonZeroI16" => "MaybeInvalid<NonZeroI16>",
                "NonZeroI32" => "MaybeInvalid<NonZeroI32>",
                "NonZeroI64" => "MaybeInvalid<NonZeroI64>",
                _ => "MaybeInvalid<NonZeroI128>",
            },
            into: name,
        };
        assert_eq!(check(&shape, &zero), Err(expected));
        assert_eq!(check(&shape, &one), Ok(()));
        assert_eq!(check(&shape, &max), Ok(()));
        assert_eq!(check(&shape, &top), Ok(()));
    }
}

#[test]
fn enum_tag_selects_its_variant() {
    let ta = ta();
    // D's payload is a plain u32: any bits pass.
    assert_eq!(check(&ta, &ta_bytes(150, &[])), Ok(()));
    // E's second field is non-zero: zero fails with that field's error.
    assert_eq!(
        check(&ta, &ta_bytes(151, &[(8, 100)])),
        Err(Error {
            error: invalid_bits(&[0], vec![1], vec![0xff]),
            from: "MaybeInvalid<NonZeroU8>",
            into: "NonZeroU8",
        })
    );
    // Bytes past the active variant are not read.
    assert_eq!(check(&ta, &ta_bytes(0, &[(8, 0), (500, 9)])), Ok(()));
}

#[test]
fn enum_unknown_tag_reports_its_bits() {
    let ta = ta();
    for tag in [2u8, 149, 152, 255] {
        assert_eq!(
            check(&ta, &ta_bytes(tag, &[(8, 1), (10, 1)])),
            Err(Error {
                error: ErrorKind::InvalidEnumDiscriminant(BitPattern::from_le(&[
                    tag, 0, 0, 0, 0, 0, 0, 0
                ])),
                from: "MaybeInvalid<TA>",
                into: "TA",
            })
        );
    }
    let mut high = ta_bytes(0, &[]);
    high[7] = 0x80;
    assert_eq!(
        check(&ta, &high),
        Err(Error {
            error: ErrorKind::InvalidEnumDiscriminant(BitPattern::from_le(&[
                0, 0, 0, 0, 0, 0, 0, 0x80
            ])),
            from: "MaybeInvalid<TA>",
            into: "TA",
        })
    );
}

#[test]
fn first_invalid_field_wins() {
    // repr(C) struct { x: NonZeroU8, y: NonZeroU16 }: y at offset 2, size 4.
    let s = structure(vec![Shape::NonZero(IntKind::U8), Shape::NonZero(IntKind::U16)]);
    assert_eq!(s.layout(), Some(Layout { size: 4, align: 2 }));
    assert_eq!(
        check(&s, &[0, 0, 0, 0]),
        Err(Error {
            error: invalid_bits(&[0], vec![1], vec![0xff]),
            from: "MaybeInvalid<NonZeroU8>",
            into: "NonZeroU8",
        })
    );
    // The padding byte at offset 1 is not part of any field.
    assert_eq!(
        check(&s, &[1, 9, 0, 0]),
        Err(Error {
            error: invalid_bits(&[0, 0], vec![1, 0], vec![0xff, 0xff]),
            from: "MaybeInvalid<NonZeroU16>",
            into: "NonZeroU16",
        })
    );
    assert_eq!(check(&s, &[1, 0, 0, 1]), Ok(()));
}

#[test]
fn always_valid_needs_every_field() {
    let ints = structure(vec![Shape::Int(IntKind::U8), Shape::Int(IntKind::U64)]);
    assert!(ints.is_nicheless());
    let nested = structure(vec![ints, structure(vec![Shape::Int(IntKind::I16)])]);
    assert!(nested.is_nicheless());
    let with_niche = structure(vec![Shape::Int(IntKind::U8), deep(3)]);
    assert!(!with_niche.is_nicheless());
    assert!(!Shape::NonZero(IntKind::U32).is_nicheless());
    assert!(Shape::NonZero(IntKind::U32).has_one_niche());
    assert!(!Shape::Int(IntKind::U32).has_one_niche());
    assert!(!ta().is_nicheless());
    let optional = Shape::Optional(Box::new(Shape::NonZero(IntKind::U16)));
    assert!(optional.is_nicheless());
    assert_eq!(optional.layout(), Some(Layout { size: 2, align: 2 }));
    assert_eq!(check(&optional, &[0, 0]), Ok(()));
    assert!(structure(vec![optional]).is_nicheless());
}

#[test]
fn always_valid_block_needs_no_check() {
    let s = structure(vec![Shape::Int(IntKind::U8), Shape::Int(IntKind::U32)]);
    let block = MaybeInvalid::from_bytes(&[1, 2, 3, 4, 5, 6, 7, 8]);
    let value = block.into_inner(&s);
    assert_eq!(value.as_bytes(), &[1u8, 2, 3, 4, 5, 6, 7, 8][..]);
}

#[test]
fn zeroed_deep_struct_reports_innermost_error() {
    let s = deep(6);
    assert_eq!(s.layout(), Some(Layout { size: 1, align: 1 }));
    let zero = MaybeInvalid::zeroed(&s);
    assert_eq!(
        s.can_transmute(&zero),
        Err(Error {
            error: invalid_bits(&[0], vec![1], vec![0xff]),
            from: "MaybeInvalid<NonZeroU8>",
            into: "NonZeroU8",
        })
    );
    let wide = structure(vec![Shape::Int(IntKind::U8), structure(vec![Shape::NonZero(IntKind::U32)])]);
    assert_eq!(wide.layout(), Some(Layout { size: 8, align: 4 }));
    assert_eq!(
        wide.can_transmute(&MaybeInvalid::zeroed(&wide)),
        Err(Error {
            error: invalid_bits(&[0; 4], vec![1, 0, 0, 0], vec![0xff; 4]),
            from: "MaybeInvalid<NonZeroU32>",
            into: "NonZeroU32",
        })
    );
}

#[test]
fn c_layout_rules() {
    // { u8, u32, u16 }: offsets 0, 4, 8; size 12, align 4.
    let s = structure(vec![
        Shape::Int(IntKind::U8),
        Shape::Int(IntKind::U32),
        Shape::Int(IntKind::U16),
    ]);
    assert_eq!(s.layout(), Some(Layout { size: 12, align: 4 }));
    assert_eq!(s.size(), 12);
    assert_eq!(s.align(), 4);
    let aligned = Shape::Struct { fields: vec![Shape::Int(IntKind::U8)], align: 16 };
    assert_eq!(aligned.layout(), Some(Layout { size: 16, align: 16 }));
    assert_eq!(Shape::Int(IntKind::U128).layout(), Some(Layout { size: 16, align: 16 }));
    assert_eq!(unit_a().layout(), Some(Layout { size: 0, align: 1 }));
    // repr(u8) enum { A(u8), B(u32) }: variant B is { tag, pad, u32 } = 8 bytes.
    let e = Shape::Enum {
        name: "E",
        universe: "MaybeInvalid<E>",
        tag: IntKind::U8,
        variants: vec![
            variant(None, vec![Shape::Int(IntKind::U8)]),
            variant(None, vec![Shape::Int(IntKind::U32)]),
        ],
        align: 0,
    };
    assert_eq!(e.layout(), Some(Layout { size: 8, align: 4 }));
}

#[test]
fn malformed_shapes_have_no_layout() {
    let bad_align = Shape::Struct { fields: vec![], align: 3 };
    assert_eq!(bad_align.layout(), None);
    let huge_align = Shape::Struct { fields: vec![], align: 1 << 30 };
    assert_eq!(huge_align.layout(), None);
    let empty_enum = Shape::Enum {
        name: "Never",
        universe: "MaybeInvalid<Never>",
        tag: IntKind::U8,
        variants: vec![],
        align: 0,
    };
    assert_eq!(empty_enum.layout(), None);
    assert_eq!(Shape::Optional(Box::new(Shape::Int(IntKind::U8))).layout(), None);
    let overflowing = Shape::Enum {
        name: "O",
        universe: "MaybeInvalid<O>",
        tag: IntKind::U8,
        variants: vec![variant(Some(255), vec![]), variant(None, vec![])],
        align: 0,
    };
    assert_eq!(overflowing.layout(), None);
    let duplicate = Shape::Enum {
        name: "Dup",
        universe: "MaybeInvalid<Dup>",
        tag: IntKind::U8,
        variants: vec![variant(None, vec![]), variant(None, vec![]), variant(Some(1), vec![])],
        align: 0,
    };
    assert_eq!(discriminants(IntKind::U8, &vec![
        variant(None, vec![]),
        variant(None, vec![]),
        variant(Some(1), vec![]),
    ]), Some(vec![0, 1, 1]));
    assert_eq!(duplicate.layout(), None);
    // Each step pads to the 2^29 alignment; the third passes the size limit.
    let a = Shape::Struct { fields: vec![Shape::Int(IntKind::U8)], align: 1 << 29 };
    let b = structure(vec![a, Shape::Int(IntKind::U8)]);
    assert_eq!(b.layout(), Some(Layout { size: 1 << 30, align: 1 << 29 }));
    let c = structure(vec![b, Shape::Int(IntKind::U8)]);
    assert_eq!(c.layout(), Some(Layout { size: 3 << 29, align: 1 << 29 }));
    let d = structure(vec![c, Shape::Int(IntKind::U8)]);
    assert!(iffi::MAX_SIZE < 1 << 31);
    assert_eq!(d.layout(), None);
}

#[test]
fn discriminants_follow_c_rules() {
    let vs = vec![
        variant(None, vec![]),
        variant(None, vec![]),
        variant(Some(150), vec![]),
        variant(None, vec![]),
    ];
    assert_eq!(discriminants(IntKind::I64, &vs), Some(vec![0, 1, 150, 151]));

    let wraps = vec![variant(Some(0xff), vec![]), variant(None, vec![])];
    assert_eq!(discriminants(IntKind::I8, &wraps), Some(vec![0xff, 0]));
    assert_eq!(discriminants(IntKind::U8, &wraps), None);

    let past_max = vec![variant(Some(0x7f), vec![]), variant(None, vec![])];
    assert_eq!(discriminants(IntKind::I8, &past_max), None);
    assert_eq!(discriminants(IntKind::U8, &past_max), Some(vec![0x7f, 0x80]));

    let too_wide = vec![variant(Some(0x100), vec![])];
    assert_eq!(discriminants(IntKind::U8, &too_wide), None);
    assert_eq!(discriminants(IntKind::U16, &too_wide), Some(vec![0x100]));
}

#[test]
fn error_and_bit_types() {
    let e = Error::new(ErrorKind::NullPtr, "MaybeInvalid<NonNull<u8>>", "NonNull<u8>");
    assert_eq!(e.error, ErrorKind::NullPtr);
    assert_eq!(e.from, "MaybeInvalid<NonNull<u8>>");
    assert_eq!(e.into, "NonNull<u8>");
    let p = BitPattern::from_le(&[1, 2, 3]);
    assert_eq!(p.len(), 3);
    assert_eq!(p.as_bytes(), &[1u8, 2, 3][..]);
    assert_eq!(BitPattern::zeroed(2), BitPattern::from_le(&[0, 0]));
    let r = BitRanges::nonzero(2);
    assert_eq!(r.len(), 1);
    assert_eq!(r, BitRanges::from_le(&[(vec![1, 0], vec![0xff, 0xff])]));
}

fn byte_enum(count: usize, payload: Shape) -> Shape {
    let mut variants = Vec::new();
    for _ in 0..count {
        variants.push(variant(None, vec![]));
    }
    variants.push(variant(None, vec![payload]));
    Shape::Enum {
        name: "Byte",
        universe: "MaybeInvalid<Byte>",
        tag: IntKind::U8,
        variants,
        align: 0,
    }
}

#[test]
fn enum_claiming_every_tag_is_always_valid() {
    let full = byte_enum(255, Shape::Int(IntKind::U8));
    assert!(full.is_nicheless());
    assert_eq!(full.layout(), Some(Layout { size: 2, align: 1 }));
    let block = MaybeInvalid::from_bytes(&[255, 7]);
    assert_eq!(block.into_inner(&full).as_bytes(), &[255u8, 7][..]);

    let short = byte_enum(254, Shape::Int(IntKind::U8));
    assert!(!short.is_nicheless());
    assert_eq!(
        check(&short, &[255, 0]),
        Err(Error {
            error: ErrorKind::InvalidEnumDiscriminant(BitPattern::from_le(&[255])),
            from: "MaybeInvalid<Byte>",
            into: "Byte",
        })
    );

    let with_niche = byte_enum(255, Shape::NonZero(IntKind::U8));
    assert!(!with_niche.is_nicheless());
}

#[test]
fn null_pointer_is_the_one_niche() {
    let ptr = Shape::NonNull(IntKind::U64);
    assert_eq!(ptr.layout(), Some(Layout { size: 8, align: 8 }));
    assert!(ptr.has_one_niche());
    assert!(!ptr.is_nicheless());
    assert_eq!(
        check(&ptr, &[0; 8]),
        Err(Error { error: ErrorKind::NullPtr, from: "MaybeInvalid<NonNull>", into: "NonNull" })
    );
    assert_eq!(check(&ptr, &[0, 0x10, 0, 0, 0, 0, 0, 0]), Ok(()));
    let optional = Shape::Optional(Box::new(Shape::NonNull(IntKind::U32)));
    assert!(optional.is_nicheless());
    assert_eq!(optional.layout(), Some(Layout { size: 4, align: 4 }));
    assert_eq!(check(&optional, &[0; 4]), Ok(()));
    // struct { len: u32, data: NonNull<u8> } on a 64-bit target
    let slice = structure(vec![Shape::Int(IntKind::U32), Shape::NonNull(IntKind::U64)]);
    assert_eq!(slice.layout(), Some(Layout { size: 16, align: 8 }));
    assert_eq!(
        check(&slice, &[3, 0, 0, 0, 0xaa, 0xaa, 0xaa, 0xaa, 0, 0, 0, 0, 0, 0, 0, 0]),
        Err(Error { error: ErrorKind::NullPtr, from: "MaybeInvalid<NonNull>", into: "NonNull" })
    );
}
