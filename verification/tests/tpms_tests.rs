use engvis::tpms::{formula_family, tpms_formula, Morphology, TpmsFamily};

const VALID_TPMS_NAMES: &[&str] = &[
    "gyroid", "schwarz-p", "schwarz-d", "schoen-iwp",
    "neovius", "f-rd", "lidinoid", "split-p",
    "fischer-koch-s", "fischer-koch-y", "fischer-koch-cp",
];

#[test]
fn tpms_formula_valid_names() {
    for name in VALID_TPMS_NAMES {
        let desc = tpms_formula(name);
        assert!(!desc.is_empty(), "{} should have a description", name);
        assert!(desc.contains("= 0"), "{} description should contain '= 0'", name);
    }
}

#[test]
fn tpms_formula_invalid_name() {
    let result = tpms_formula("invalid-surface-name");
    assert_eq!(result, "(unknown)", "invalid surface name should return '(unknown)'");
}

#[test]
fn tpms_formula_all_distinct() {
    let descs: Vec<&str> = VALID_TPMS_NAMES.iter().map(|name| tpms_formula(name)).collect();
    for i in 0..descs.len() {
        for j in (i + 1)..descs.len() {
            assert_ne!(
                descs[i], descs[j],
                "{} and {} should have different descriptions",
                VALID_TPMS_NAMES[i], VALID_TPMS_NAMES[j]
            );
        }
    }
}

#[test]
fn morphology_variants() {
    let morphologies = [Morphology::MinimalSurface, Morphology::Shell, Morphology::Skeletal];
    for m in morphologies {
        match m {
            Morphology::MinimalSurface => {}
            Morphology::Shell => {}
            Morphology::Skeletal => {}
        }
    }
}

#[test]
fn family_name_label_roundtrip() {
    assert_eq!(TpmsFamily::Gyroid.name(), "gyroid");
    assert_eq!(TpmsFamily::Gyroid.label(), "Gyroid");
    assert_eq!(TpmsFamily::from_name("gyroid"), Some(TpmsFamily::Gyroid));
    assert_eq!(TpmsFamily::FischerKochSY.name(), "fischer-koch-s");
    assert_eq!(TpmsFamily::FischerKochSCP.name(), "fischer-koch-cp");
    assert_eq!(TpmsFamily::FischerKochSC.name(), "fischer-koch-y");
}

#[test]
fn family_from_name_invalid() {
    assert_eq!(TpmsFamily::from_name("nope"), None);
}

#[test]
fn family_names_resolve_to_real_formula() {
    for f in TpmsFamily::all() {
        let desc = tpms_formula(f.name());
        assert_ne!(
            desc, "(unknown)",
            "{} has no formula description — name() likely drifted from tpms_formula arms",
            f.name()
        );
    }
}

#[test]
fn every_family_round_trips_through_its_name() {
    let all = TpmsFamily::all();
    assert_eq!(all.len(), 11);
    for f in &all {
        assert_eq!(TpmsFamily::from_name(f.name()), Some(*f));
    }
    for i in 0..all.len() {
        for j in (i + 1)..all.len() {
            assert_ne!(all[i].name(), all[j].name());
            assert_ne!(tpms_formula(all[i].name()), tpms_formula(all[j].name()));
        }
    }
}

#[test]
fn formula_family_falls_back_to_gyroid() {
    assert_eq!(formula_family("neovius"), TpmsFamily::Neovius);
    assert_eq!(formula_family("fischer-koch-y"), TpmsFamily::FischerKochSC);
    assert_eq!(formula_family("sphere"), TpmsFamily::Gyroid);
    assert_eq!(formula_family(""), TpmsFamily::Gyroid);
}

#[test]
fn only_skeletal_is_solid() {
    assert!(Morphology::Skeletal.is_solid());
    assert!(!Morphology::Shell.is_solid());
    assert!(!Morphology::MinimalSurface.is_solid());
}

#[test]
fn formula_strings_exact() {
    assert_eq!(tpms_formula("schwarz-p"), "cos(kx) + cos(ky) + cos(kz) = 0");
    assert_eq!(TpmsFamily::SchoenIwp.label(), "Schoen IWP");
}
