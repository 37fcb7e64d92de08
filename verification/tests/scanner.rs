use calshare::model::Principal;
use calshare::model::PrincipalData;
use calshare::model::PrincipalKind;
use calshare::model::ShareError;
use calshare::scanner::resolve;

fn individual(id: u32, data: Vec<PrincipalData>) -> Principal {
    Principal { id, kind: PrincipalKind::Individual, data }
}

fn share_link(token: &str) -> PrincipalData {
    PrincipalData::CalendarShareLink(token.to_string())
}

#[test]
fn resolve_finds_second_principal() {
    let principals = vec![
        individual(7, vec![share_link("$cal$4|a|b$OTHERHASH")]),
        individual(42, vec![share_link("$cal$9|a|b$SECRETHASH")]),
    ];
    assert_eq!(
        resolve("SECRETHASH", &principals),
        Ok((42, "9".to_string()))
    );
}

#[test]
fn resolve_not_found_is_uniform() {
    let no_tokens = vec![individual(1, vec![PrincipalData::Other("displayName".to_string())])];
    let wrong_hash = vec![individual(2, vec![share_link("$cal$5|a|b$RIGHTHASH")])];
    let e1 = resolve("WRONGHASH", &no_tokens).unwrap_err();
    let e2 = resolve("WRONGHASH", &wrong_hash).unwrap_err();
    assert_eq!(e1, e2);
    assert_eq!(e1, ShareError::NotFound);
    assert_eq!(e1.detail(), e2.detail());
    assert_eq!(e1.detail(), "Calendar share link not found");
}

#[test]
fn resolve_ignores_token_without_prefix() {
    let principals = vec![
        individual(3, vec![share_link("notcal$5|a|b$MATCHING")]),
    ];
    assert_eq!(resolve("MATCHING", &principals), Err(ShareError::NotFound));
}

#[test]
fn resolve_ignores_short_meta_even_when_hash_verifies() {
    let principals = vec![
        individual(4, vec![share_link("$cal$5|a$MATCHING")]),
    ];
    assert_eq!(resolve("MATCHING", &principals), Err(ShareError::NotFound));
}

#[test]
fn resolve_skips_non_individual_principals() {
    let group = Principal {
        id: 8,
        kind: PrincipalKind::Other,
        data: vec![share_link("$cal$6|a|b$MATCHING")],
    };
    let principals = vec![group.clone()];
    assert_eq!(resolve("MATCHING", &principals), Err(ShareError::NotFound));

    let later = vec![group, individual(9, vec![share_link("$cal$6|a|b$MATCHING")])];
    assert_eq!(resolve("MATCHING", &later), Ok((9, "6".to_string())));
}

#[test]
fn resolve_first_principal_wins() {
    let principals = vec![
        individual(10, vec![share_link("$cal$1|a|b$MATCHING")]),
        individual(11, vec![share_link("$cal$2|a|b$MATCHING")]),
    ];
    assert_eq!(resolve("MATCHING", &principals), Ok((10, "1".to_string())));
}

#[test]
fn resolve_first_matching_entry_wins() {
    let principals = vec![individual(
        12,
        vec![
            PrincipalData::Other("quota=5".to_string()),
            share_link("$cal$3|a|b$WRONG"),
            share_link("$cal$4|a|b$MATCHING"),
            share_link("$cal$5|a|b$MATCHING"),
        ],
    )];
    assert_eq!(resolve("MATCHING", &principals), Ok((12, "4".to_string())));
}

#[test]
fn error_details_are_fixed() {
    assert_eq!(ShareError::NotFound.detail(), "Calendar share link not found");
    assert_eq!(ShareError::Storage.detail(), "Storage operation failed");
    assert_ne!(ShareError::NotFound, ShareError::Storage);
}

#[test]
fn resolve_empty_directory() {
    let principals: Vec<Principal> = Vec::new();
    assert_eq!(resolve("ANY", &principals), Err(ShareError::NotFound));
}
