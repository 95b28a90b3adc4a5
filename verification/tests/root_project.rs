use micropython_build::root_project::{
    derive_plan, fresh_lifetime_name, ContainerAttr, DataShape, DeriveErrorKind, DeriveSite,
    FieldAttr,
};

#[test]
fn picks_a_lifetime_the_type_does_not_declare() {
    assert_eq!(fresh_lifetime_name(&[]), "__root_project");
    assert_eq!(
        fresh_lifetime_name(&["a".to_owned(), "__root_project".to_owned()]),
        "__root_project_"
    );
    assert_eq!(
        fresh_lifetime_name(&["__root_project_".to_owned(), "__root_project".to_owned()]),
        "__root_project__"
    );
}

#[test]
fn projects_the_marked_fields() {
    let fields = vec![
        vec![FieldAttr::Other],
        vec![FieldAttr::RootProject],
        vec![],
        vec![FieldAttr::Other, FieldAttr::RootProject],
    ];
    let plan = derive_plan(
        &[ContainerAttr::Repr { packed: false }, ContainerAttr::Other],
        DataShape::NamedStruct,
        &["h".to_owned()],
        &fields,
    )
    .unwrap();
    assert_eq!(plan.projected, vec![1, 3]);
    assert_eq!(plan.lifetime, "__root_project");
}

#[test]
fn refuses_what_the_derive_cannot_handle() {
    let error = derive_plan(&[ContainerAttr::Other, ContainerAttr::RootProject], DataShape::NamedStruct, &[], &[])
        .err()
        .unwrap();
    assert_eq!(error.kind, DeriveErrorKind::RootProjectOnContainer);
    assert_eq!(error.site, DeriveSite::ContainerAttr(1));
    let error = derive_plan(&[ContainerAttr::Repr { packed: true }], DataShape::NamedStruct, &[], &[])
        .err()
        .unwrap();
    assert_eq!(error.kind, DeriveErrorKind::Packed);
    let error = derive_plan(&[ContainerAttr::UnparsableRepr], DataShape::Other, &[], &[]).err().unwrap();
    assert_eq!(error.kind, DeriveErrorKind::ReprArguments);
    let error = derive_plan(&[], DataShape::Other, &[], &[]).err().unwrap();
    assert_eq!(error.kind, DeriveErrorKind::NotNamedStruct);
    assert_eq!(error.site, DeriveSite::Ident);
    let fields = vec![vec![FieldAttr::RootProject, FieldAttr::RootProject]];
    let error = derive_plan(&[], DataShape::NamedStruct, &[], &fields).err().unwrap();
    assert_eq!(error.kind, DeriveErrorKind::ExpectedSingleAttribute);
    assert_eq!(error.site, DeriveSite::FieldAttr { field: 0, attr: 1 });
    let fields = vec![vec![], vec![FieldAttr::RootProjectWithArgs]];
    let error = derive_plan(&[], DataShape::NamedStruct, &[], &fields).err().unwrap();
    assert_eq!(error.site, DeriveSite::FieldAttr { field: 1, attr: 0 });
}
