use artemis_rs::transforms::civilite::transform_civilite;
use artemis_rs::transforms::email::transform_email;
use artemis_rs::transforms::nom::transform_nom;
use artemis_rs::transforms::prenom::transform_prenom;
use artemis_rs::transforms::raison_sociale::transform_raison_sociale;
use artemis_rs::transforms::telephone::transform_telephone;

fn nom_cases() -> Vec<(Option<&'static str>, Option<String>)> {
    vec![
        (
            Some("Jean-Dupont//Smith"),
            Some("JEAN DUPONT ET SMITH".to_string()),
        ),
        (
            Some("Marie-Curie&Einstein"),
            Some("MARIE CURIE ET EINSTEIN".to_string()),
        ),
        (Some("N/A"), Some("N ET A".to_string())),
        (Some("O'Neil & Sons"), Some("O'NEIL ET SONS".to_string())),
        (Some("El Niño"), Some("EL NINO".to_string())),
        (
            Some("&Carre & Lagrave&"),
            Some("CARRE ET LAGRAVE".to_string()),
        ),
        (
            Some("/Sébastien / Pascal/"),
            Some("SEBASTIEN ET PASCAL".to_string()),
        ),
        (Some("Carre_/"), Some("CARRE".to_string())),
        (Some("Brøgger"), Some("BRØGGER".to_string())),
        (None, None),
        (Some(""), None),
        (Some("    "), None),
    ]
}

#[test]
fn test_transform_nom() {
    for (input, expected) in nom_cases() {
        let result = transform_nom(input);
        assert_eq!(result, expected, "Failed on input: {:?}", input);
    }
}

#[test]
fn nom_test_transform_nom() {
    for (input, expected) in nom_cases() {
        let result = transform_nom(input);
        assert_eq!(result, expected, "Failed on input: {:?}", input);
    }
}

#[test]
fn transforms_test_transform_nom() {
    for (input, expected) in nom_cases() {
        let result = transform_nom(input);
        assert_eq!(result, expected, "Failed on input: {:?}", input);
    }
}

fn prenom_cases() -> Vec<(Option<&'static str>, Option<String>)> {
    vec![
        (Some("amélie"), Some("Amélie".to_string())),
        (Some("LOUCA"), Some("Louca".to_string())),
        (Some("H-an"), Some("H-An".to_string())),
        (Some("élie"), Some("Elie".to_string())),
        (Some("anne-marie"), Some("Anne-Marie".to_string())),
        (Some("anne marie"), Some("Anne Marie".to_string())),
        (Some("Hélène*3"), Some("Hélène".to_string())),
        (Some("Hélène&Adelin"), Some("Hélène Adelin".to_string())),
        (None, None),
    ]
}

#[test]
fn transforms_test_transform_prenom() {
    for (input, expected) in prenom_cases() {
        let result = transform_prenom(input);
        assert_eq!(result, expected, "Failed on input: {:?}", input);
    }
}

#[test]
fn prenom_test_transform_prenom() {
    for (input, expected) in prenom_cases() {
        let result = transform_prenom(input);
        assert_eq!(result, expected, "Failed on input: {:?}", input);
    }
}

fn email_cases() -> Vec<(Option<&'static str>, Option<String>)> {
    vec![
        (
            Some("Lucas31@gmail.com"),
            Some("LUCAS31@GMAIL.COM".to_string()),
        ),
        (
            Some("Lucas 31@gmail.com"),
            Some("LUCAS31@GMAIL.COM".to_string()),
        ),
        (
            Some("Lucàs31@gmail.com"),
            Some("LUCAS31@GMAIL.COM".to_string()),
        ),
        (
            Some("Luc’’as31@gmail.com"),
            Some("LUCAS31@GMAIL.COM".to_string()),
        ),
        (
            Some("Lucas31@gmail.com"),
            Some("LUCAS31@GMAIL.COM".to_string()),
        ),
        (Some("@gmail.com"), None),
        (Some("Lucas31gmail.com"), None),
        (Some("Lucas31@g.com"), None),
        (Some("Lucas31@siapartnersrue(XXXX....XXXX).com"), None),
        (Some("Lucas31@"), None),
        (Some("Lucas31@gmail.c-om"), None),
        (
            Some("Lucas31@.gmail.com"),
            Some("LUCAS31@GMAIL.COM".to_string()),
        ),
        (Some("Lucas31@gmail."), None),
        (Some("Lucas31@gmail..com"), None),
        (Some("Lucas31@gmail.f"), None),
        (Some("Lucas31@gmail.commmee"), None),
        (None, None),
        (Some("em&ms@gmail..com"), None),
    ]
}

#[test]
fn test_transform_email() {
    for (input, expected) in email_cases() {
        let result = transform_email(input);
        assert_eq!(result, expected, "Failed on input: {:?}", input);
    }
}

#[test]
fn email_test_transform_email() {
    for (input, expected) in email_cases() {
        let result = transform_email(input);
        assert_eq!(result, expected, "Failed on input: {:?}", input);
    }
}

fn raison_sociale_cases() -> Vec<(Option<&'static str>, Option<String>)> {
    vec![
        (Some("\"ED\"\"BANGER\""), Some("ED\"BANGER".to_string())),
        (Some("Imagin&tiff_"), Some("IMAGIN&TIFF_".to_string())),
        (Some("S’ociété"), Some("S’OCIETE".to_string())),
        (Some("VECCHIA/"), Some("VECCHIA/".to_string())),
        (Some("//MONEYY//"), Some("//MONEYY//".to_string())),
        (Some("Straße"), Some("STRAßE".to_string())),
        (Some("Ve&ccio"), Some("VE&CCIO".to_string())),
        (Some("édouardservices"), Some("EDOUARDSERVICES".to_string())),
        (Some("imagin//"), Some("IMAGIN//".to_string())),
        (Some("HecøTOR"), Some("HECØTOR".to_string())),
        (Some("ed'GAR"), Some("ED'GAR".to_string())),
        (Some("Société dupont"), Some("SOCIETE DUPONT".to_string())),
        (Some("villiers"), Some("VILLIERS".to_string())),
        (Some("Paul&JO"), Some("PAUL&JO".to_string())),
        (Some("\"\"vanescènce\""), Some("\"VANESCENCE".to_string())),
        (Some("Brøgger"), Some("BRØGGER".to_string())),
        (Some("A"), Some("A".to_string())),
        (None, None),
        (Some("TIGER_Milk"), Some("TIGER_MILK".to_string())),
        (Some("漢字"), Some("漢字".to_string())),
    ]
}

#[test]
fn test_transform_raison_sociale() {
    for (input, expected) in raison_sociale_cases() {
        let result = transform_raison_sociale(input);
        assert_eq!(result, expected, "Failed on input: {:?}", input);
    }
}

#[test]
fn raison_sociale_test_transform_raison_sociale() {
    for (input, expected) in raison_sociale_cases() {
        let result = transform_raison_sociale(input);
        assert_eq!(result, expected, "Failed on input: {:?}", input);
    }
}

#[test]
fn test_transform_telephone() {
    let test_cases = vec![
        (
            Some("07 85 78 45 21b"),
            Some("+33 7 85 78 45 21".to_string()),
        ),
        (
            Some("06.58.96.32.47"),
            Some("+33 6 58 96 32 47".to_string()),
        ),
        (
            Some("06-58-96a32’47"),
            Some("+33 6 58 96 32 47".to_string()),
        ),
        (Some("443-73-421-00395"), None),
        (Some("\"06.\"\"é/940592\""), None),
        (Some("081 6 75 57 98"), None),
        (
            Some("085 6 75 57 98"),
            Some("+33 8 56 75 57 98".to_string()),
        ),
        (None, None),
    ];

    for (input, expected) in test_cases {
        let result = transform_telephone(input);
        assert_eq!(
            result, expected,
            "For input {:?}, expected {:?} but got {:?}",
            input, expected, result
        );
    }
}

#[test]
fn test_transform_civilite() {
    let test_cases = vec![
        (Some("Mm"), Some("MONSIEUR".to_string())),
        (Some("MR"), Some("MONSIEUR".to_string())),
        (Some("Ms"), Some("MADAME".to_string())),
        (Some("MMe"), Some("MADAME".to_string())),
        (Some("M(espace)"), Some("MONSIEUR".to_string())),
        (Some("MAD"), Some("MADAME".to_string())),
        (Some("MADAME"), Some("MADAME".to_string())),
        (Some("MM Mme"), Some("MONSIEUR MADAME".to_string())),
        (Some("Mme M."), Some("MONSIEUR MADAME".to_string())),
        (Some("MISS"), None),
        (None, None),
    ];

    for (input, expected) in test_cases {
        let result = transform_civilite(input);
        assert_eq!(result, expected, "Failed on input: {:?}", input);
    }
}

#[test]
fn a_single_letter_cell_is_kept_and_a_single_non_letter_is_rejected() {
    assert_eq!(transform_prenom(Some("e")), Some("e".to_string()));
    assert_eq!(transform_prenom(Some("é")), Some("é".to_string()));
    assert_eq!(transform_prenom(Some("Z")), Some("Z".to_string()));
    assert_eq!(transform_prenom(Some("3")), None);
    assert_eq!(transform_prenom(Some("£")), None);
    assert_eq!(transform_prenom(Some("'")), None);
}

#[test]
fn every_name_part_is_title_cased() {
    assert_eq!(transform_prenom(Some("h-an")), Some("H-An".to_string()));
    assert_eq!(transform_prenom(Some("j b")), Some("J B".to_string()));
}

#[test]
fn name_boundaries_lose_spaces_and_other_non_letters() {
    assert_eq!(transform_nom(Some("£ -A")), Some("A".to_string()));
    assert_eq!(transform_nom(Some("  3M Corp  ")), Some("M CORP".to_string()));
    assert_eq!(transform_nom(Some(" - ")), Some("".to_string()));
}
