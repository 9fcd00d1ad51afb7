use tournament_core::id::{GameId, PlayerId, TournamentId};
use tournament_core::response::BasicResponse;
use tournament_core::uuid_text::{format_uuid, parse_uuid};

#[test]
fn id_equality_is_by_raw_value() {
    assert_eq!(PlayerId::from_raw(5), PlayerId::from_raw(5));
    assert_ne!(PlayerId::from_raw(5), PlayerId::from_raw(6));
    assert_eq!(PlayerId::from_raw(5).raw(), 5);
}

#[test]
fn random_ids_are_distinct() {
    let a = TournamentId::new_random();
    let b = TournamentId::new_random();
    assert_ne!(a, b);
}

#[test]
fn format_zero_uuid() {
    assert_eq!(format_uuid(0), "00000000-0000-0000-0000-000000000000");
}

#[test]
fn format_known_uuid() {
    assert_eq!(
        format_uuid(0x0123456789abcdef0123456789abcdefu128),
        "01234567-89ab-cdef-0123-456789abcdef"
    );
}

#[test]
fn parse_known_uuid() {
    assert_eq!(
        parse_uuid("01234567-89ab-cdef-0123-456789abcdef"),
        Some(0x0123456789abcdef0123456789abcdefu128)
    );
}

#[test]
fn parse_accepts_uppercase_hex() {
    assert_eq!(
        parse_uuid("01234567-89AB-CDEF-0123-456789ABCDEF"),
        Some(0x0123456789abcdef0123456789abcdefu128)
    );
}

#[test]
fn parse_rejects_malformed_text() {
    assert_eq!(parse_uuid(""), None);
    assert_eq!(parse_uuid("not-a-uuid"), None);
    assert_eq!(parse_uuid("01234567089ab-cdef-0123-456789abcdef"), None);
    assert_eq!(parse_uuid("01234567-89ab-cdef-0123-456789abcdeg"), None);
    assert_eq!(parse_uuid("01234567-89ab-cdef-0123-456789abcde"), None);
    assert_eq!(parse_uuid("01234567-89ab-cdef-0123-456789abcdef0"), None);
}

#[test]
fn id_text_round_trip_fixed() {
    let id = PlayerId::from_raw(0x0123456789abcdef0123456789abcdefu128);
    let text = id.to_text();
    assert_eq!(text, "01234567-89ab-cdef-0123-456789abcdef");
    assert_eq!(PlayerId::from_text(&text), Some(id));
}

#[test]
fn id_text_round_trip_random() {
    let g = GameId::new_random();
    assert_eq!(GameId::from_text(&g.to_text()), Some(g));
    let t = TournamentId::new_random();
    assert_eq!(TournamentId::from_text(&t.to_text()), Some(t));
}

#[test]
fn basic_response_wraps_payload() {
    let r = BasicResponse::new(42u32);
    assert_eq!(r.0, 42);
    let s = BasicResponse::new("hello".to_string());
    assert_eq!(s.0, "hello");
}
