use engvis::surface::SurfaceType;

#[test]
fn surface_type_name() {
    assert_eq!(SurfaceType::Sphere.name(), "sphere");
    assert_eq!(SurfaceType::Torus.name(), "torus");
    assert_eq!(SurfaceType::Custom("test".to_string()).name(), "custom");
}

#[test]
fn surface_type_label() {
    assert_eq!(SurfaceType::Sphere.label(), "Sphere");
    assert_eq!(SurfaceType::Torus.label(), "Torus");
    assert_eq!(SurfaceType::Custom("x".into()).label(), "Custom");
}

#[test]
fn surface_type_is_primitive() {
    assert!(SurfaceType::Sphere.is_primitive());
    assert!(SurfaceType::Torus.is_primitive());
    assert!(!SurfaceType::Custom("x".into()).is_primitive());
}

#[test]
fn surface_type_from_name() {
    assert_eq!(SurfaceType::from_name("sphere"), Some(SurfaceType::Sphere));
    assert_eq!(SurfaceType::from_name("torus"), Some(SurfaceType::Torus));
    assert_eq!(SurfaceType::from_name("invalid"), None);
}

#[test]
fn surface_type_builtin_surfaces() {
    let surfaces = SurfaceType::builtin_surfaces();
    assert!(surfaces.contains(&SurfaceType::Sphere));
    assert!(surfaces.contains(&SurfaceType::Torus));
    assert!(!surfaces.iter().any(|s| matches!(s, SurfaceType::Custom(_))));
}

#[test]
fn primitive_names_parse_back() {
    for s in SurfaceType::primitive_surfaces() {
        assert_eq!(SurfaceType::from_name(s.name()), Some(s.clone()));
    }
    assert_eq!(SurfaceType::from_name("custom"), None);
}
