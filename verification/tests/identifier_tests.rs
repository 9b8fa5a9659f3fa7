use artemis_rs::fold::strip_accent;
use artemis_rs::transforms::ape::{transform_ape, transform_code_naf, transform_libelle_naf};
use artemis_rs::transforms::pce::transform_pce;
use artemis_rs::transforms::siren::transform_siren;
use artemis_rs::transforms::siret::transform_siret;

#[test]
fn siret_accepts_exactly_fourteen_digits() {
    let cases = vec![
        (Some("443 169 524 00120"), Some("44316952400120".to_string())),
        (Some("443.169.524.00120"), Some("44316952400120".to_string())),
        (Some("443 169 524 GH780"), None),
        (Some("4ZT 169 524 00120"), None),
        (None, None),
    ];
    for (input, expected) in cases {
        assert_eq!(transform_siret(input), expected, "Failed on input: {:?}", input);
    }
}

#[test]
fn siren_accepts_exactly_nine_digits() {
    let cases = vec![
        (Some("732829320"), Some("732829320".to_string())),
        (Some("732 829-320"), Some("732829320".to_string())),
        (Some("732829320111"), None),
        (Some("73282932A"), None),
        (None, None),
    ];
    for (input, expected) in cases {
        assert_eq!(transform_siren(input), expected, "Failed on input: {:?}", input);
    }
}

#[test]
fn activity_codes_take_four_digits_and_a_letter() {
    let cases = vec![
        (Some("62.01z"), Some("6201Z".to_string())),
        (Some("62,01z"), Some("6201Z".to_string())),
        (Some("94z"), None),
        (Some("12325"), None),
        (Some("a2325"), None),
        (None, None),
    ];
    for (input, expected) in cases {
        assert_eq!(transform_ape(input), expected.clone(), "Failed on input: {:?}", input);
    }
    let naf_cases = vec![
        (Some("011;1Z"), Some("0111Z".to_string())),
        (Some("1234a"), Some("1234A".to_string())),
        (Some("5678B"), Some("5678B".to_string())),
        (Some("1234"), None),
        (Some("5678"), None),
        (Some("12-34"), None),
    ];
    for (input, expected) in naf_cases {
        assert_eq!(transform_code_naf(input), expected.clone(), "Failed on input: {:?}", input);
        assert_eq!(transform_libelle_naf(input), expected, "Failed on input: {:?}", input);
    }
}

#[test]
fn pce_keeps_digits_of_any_length() {
    assert_eq!(transform_pce(Some("GI153780")), Some("153780".to_string()));
    assert_eq!(transform_pce(Some("abc")), Some("".to_string()));
    assert_eq!(transform_pce(None), None);
}

#[test]
fn folding_strips_latin_diacritics_and_keeps_the_rest() {
    assert_eq!(strip_accent("Café crème"), "Cafe creme".to_string());
    assert_eq!(strip_accent("ÀÉÎÕÜÇÑ"), "AEIOUCN".to_string());
    assert_eq!(strip_accent("Brøgger ß 漢字"), "Brøgger ß 漢字".to_string());
    assert_eq!(strip_accent(""), "".to_string());
}

#[test]
fn transforms_are_idempotent_on_canonical_values() {
    let nom = artemis_rs::transforms::nom::transform_nom(Some("/Sébastien / Pascal/")).unwrap();
    assert_eq!(
        artemis_rs::transforms::nom::transform_nom(Some(nom.as_str())),
        Some(nom.clone())
    );
    let email = artemis_rs::transforms::email::transform_email(Some("Lucàs31@gmail.com")).unwrap();
    assert_eq!(
        artemis_rs::transforms::email::transform_email(Some(email.as_str())),
        Some(email.clone())
    );
    let tel = artemis_rs::transforms::telephone::transform_telephone(Some("06.58.96.32.47"))
        .unwrap();
    assert_eq!(
        artemis_rs::transforms::telephone::transform_telephone(Some(tel.as_str())),
        Some(tel.clone())
    );
    let siret = transform_siret(Some("443 169 524 00120")).unwrap();
    assert_eq!(transform_siret(Some(siret.as_str())), Some(siret.clone()));
    let prenom = artemis_rs::transforms::prenom::transform_prenom(Some("anne-marie")).unwrap();
    assert_eq!(
        artemis_rs::transforms::prenom::transform_prenom(Some(prenom.as_str())),
        Some(prenom.clone())
    );
    let civ = artemis_rs::transforms::civilite::transform_civilite(Some("MM Mme")).unwrap();
    assert_eq!(
        artemis_rs::transforms::civilite::transform_civilite(Some(civ.as_str())),
        Some(civ.clone())
    );
    let rs = artemis_rs::transforms::raison_sociale::transform_raison_sociale(Some("Société"))
        .unwrap();
    assert_eq!(
        artemis_rs::transforms::raison_sociale::transform_raison_sociale(Some(rs.as_str())),
        Some(rs.clone())
    );
}
