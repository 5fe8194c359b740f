use protocol_util::macro_input::{Fields, Item, ParseError, Type};
use protocol_util::macro_output;

fn named(members: &[(&str, u32)]) -> Fields<u32> {
    Fields::Named(members.iter().map(|(n, t)| (n.to_string(), *t)).collect())
}

#[test]
fn structs_need_named_fields() {
    let parsed = Type::parse(Item::Struct { name: "Room".into(), fields: named(&[("user_name", 1)]) });
    match parsed {
        Ok(Type::Structure(s)) => {
            assert_eq!(s.name, "Room");
            assert_eq!(s.members, vec![("user_name".to_string(), 1)]);
        },
        _ => panic!("a struct with named fields is accepted"),
    }
    assert_eq!(
        Type::parse(Item::Struct { name: "T".into(), fields: Fields::Unnamed(vec![1u32]) }).err(),
        Some(ParseError::NamedFieldsOnly)
    );
    assert_eq!(Type::<u32>::parse(Item::Other).err(), Some(ParseError::StructOrEnumOnly));
}

#[test]
fn enum_variants_need_one_unnamed_field() {
    let ok = Type::parse(Item::Enum {
        name: "EchoResponse".into(),
        variants: vec![
            ("Alright".into(), Fields::Unnamed(vec![1u32])),
            ("UhOh".into(), Fields::Unnamed(vec![2u32])),
        ],
    });
    match ok {
        Ok(Type::Enum(e)) => {
            assert_eq!(e.name, "EchoResponse");
            assert_eq!(e.variants, vec![("Alright".to_string(), 1), ("UhOh".to_string(), 2)]);
        },
        _ => panic!("an enum of single unnamed fields is accepted"),
    }
    let two = Type::parse(Item::Enum {
        name: "E".into(),
        variants: vec![
            ("A".into(), Fields::Unnamed(vec![1u32])),
            ("B".into(), Fields::Unnamed(vec![2u32, 3])),
            ("C".into(), Fields::Unit),
        ],
    });
    assert_eq!(two.err(), Some(ParseError::SingleUnnamedFieldOnly(1)));
    let unit = Type::parse(Item::Enum {
        name: "E".into(),
        variants: vec![("A".into(), Fields::Unit), ("B".into(), Fields::Unnamed(vec![2u32, 3]))],
    });
    assert_eq!(unit.err(), Some(ParseError::UnnamedFieldsOnly(0)));
}

#[test]
fn generated_names() {
    let s = match Type::parse(Item::Struct {
        name: "JoinRoom".into(),
        fields: named(&[("room_name", 1), ("user", 2), ("send_message", 3)]),
    }) {
        Ok(t) => macro_output::Type::from_input(t),
        Err(_) => panic!("accepted"),
    };
    match s {
        macro_output::Type::Structure(s) => {
            assert_eq!(s.rx_name, "JoinRoomRx");
            assert_eq!(s.tx_name, "JoinRoomTx");
            assert_eq!(s.sent_type_params(), vec!["RoomName", "User", "SendMessage"]);
        },
        _ => panic!("a struct stays a struct"),
    }
    let e = match Type::parse(Item::Enum {
        name: "EchoResponse".into(),
        variants: vec![
            ("Alright".into(), Fields::Unnamed(vec![1u32])),
            ("UhOh".into(), Fields::Unnamed(vec![2u32])),
        ],
    }) {
        Ok(t) => macro_output::Type::from_input(t),
        Err(_) => panic!("accepted"),
    };
    match e {
        macro_output::Type::Enum(e) => {
            assert_eq!(e.rx_name, "EchoResponseRx");
            let (alias, args) = e.sent_alias(1);
            assert_eq!(alias, "EchoResponseTxUhOh");
            assert_eq!(
                args,
                vec![macro_output::AliasArg::Infallible, macro_output::AliasArg::Parameter]
            );
        },
        _ => panic!("an enum stays an enum"),
    }
}
