use lib::command_nbt_path_argument::{NbtPathArgumentModel, NbtPathModel, PathNodeModel, NbtPathError, CommandContextModel, get_path};
use lib::nbt::Tag;
fn compound(fields: Vec<(&str, Tag)>) -> Tag {
    Tag::Compound(
        fields
            .into_iter()
            .map(|(name, value)| (name.to_string(), value))
            .collect(),
    )
}

#[test]
fn java_factory_examples_context_getter_and_codec_like_of_match_source() {
    let argument = NbtPathArgumentModel::nbt_path();
    assert_eq!(
        argument.examples(),
        ["foo", "foo.bar", "foo[0]", "[0]", "[]", "{foo=bar}"]
    );
    let path = NbtPathModel::of("foo.bar").unwrap();
    assert_eq!(path.as_string(), "foo.bar");
    let context = CommandContextModel::default().with_path("path", path.clone());
    assert_eq!(get_path(&context, "path"), Some(path));
}

#[test]
fn java_parse_covers_node_kinds_and_original_positions() {
    let path = NbtPathModel::of("{foo=bar}.items[{id=stone}][0][]").unwrap();
    assert!(matches!(path.nodes()[0], PathNodeModel::MatchRootObject(_)));
    assert!(matches!(path.nodes()[1], PathNodeModel::CompoundChild(_)));
    assert!(matches!(path.nodes()[2], PathNodeModel::MatchElement(_)));
    assert!(matches!(path.nodes()[3], PathNodeModel::IndexedElement(0)));
    assert!(matches!(path.nodes()[4], PathNodeModel::AllElements));
    assert_eq!(
        NbtPathModel::of("foo.{bar=1}"),
        Err(NbtPathError::InvalidNode)
    );
}

#[test]
fn java_get_and_count_matching_walk_paths_and_report_prefix_on_miss() {
    let tag = compound(vec![(
        "foo",
        compound(vec![(
            "list",
            Tag::List(vec![compound(vec![(
                "id",
                Tag::String("stone".to_string()),
            )])]),
        )]),
    )]);
    let path = NbtPathModel::of("foo.list[{id=stone}].id").unwrap();
    assert_eq!(path.count_matching(&tag), 1);
    assert_eq!(path.get(&tag), Ok(vec![Tag::String("stone".to_string())]));

    let missing = NbtPathModel::of("foo.missing.name").unwrap();
    assert_eq!(
        missing.get(&tag),
        Err(NbtPathError::NothingFound("foo.missing".to_string()))
    );
}

#[test]
fn java_set_creates_parent_compounds_and_reports_changed_count() {
    let mut tag = Tag::Compound(Vec::new());
    let path = NbtPathModel::of("foo.bar").unwrap();
    assert_eq!(path.set(&mut tag, Tag::Int(3)), Ok(1));
    assert_eq!(
        tag,
        compound(vec![("foo", compound(vec![("bar", Tag::Int(3))]))])
    );
    assert_eq!(path.set(&mut tag, Tag::Int(3)), Ok(0));
}

#[test]
fn java_index_all_and_remove_mutations_match_list_behavior() {
    let mut tag = compound(vec![(
        "items",
        Tag::List(vec![Tag::Int(1), Tag::Int(2), Tag::Int(3)]),
    )]);
    assert_eq!(
        NbtPathModel::of("items[-1]")
            .unwrap()
            .set(&mut tag, Tag::Int(9)),
        Ok(1)
    );
    assert_eq!(NbtPathModel::of("items[]").unwrap().remove(&mut tag), 3);
    assert_eq!(tag, compound(vec![("items", Tag::List(Vec::new()))]));
}

#[test]
fn java_insert_requires_list_checks_index_and_counts_modified_targets() {
    let mut tag = compound(vec![("items", Tag::List(vec![Tag::Int(1), Tag::Int(3)]))]);
    let path = NbtPathModel::of("items").unwrap();
    assert_eq!(path.insert(1, &mut tag, &[Tag::Int(2)]), Ok(1));
    assert_eq!(
        tag,
        compound(vec![(
            "items",
            Tag::List(vec![Tag::Int(1), Tag::Int(2), Tag::Int(3)])
        )])
    );
    assert_eq!(
        path.insert(9, &mut tag, &[Tag::Int(4)]),
        Err(NbtPathError::InvalidIndex(9))
    );
    let mut not_list = compound(vec![("items", Tag::Int(1))]);
    assert_eq!(
        path.insert(0, &mut not_list, &[Tag::Int(4)]),
        Err(NbtPathError::ExpectedList)
    );
}

#[test]
fn java_match_object_and_match_element_create_or_filter_by_partial_compound() {
    let mut tag = compound(vec![("items", Tag::List(Vec::new()))]);
    let path = NbtPathModel::of("items[{id=stone}]").unwrap();
    assert_eq!(
        path.get_or_create(&mut tag, || compound(vec![("count", Tag::Int(1))])),
        Ok(vec![compound(vec![(
            "id",
            Tag::String("stone".to_string())
        )])])
    );
    assert_eq!(path.count_matching(&tag), 1);
}

#[test]
fn java_depth_guard_trips_at_512_plus_estimated_path_depth() {
    let mut deep = Tag::Int(1);
    for _ in 0..512 {
        deep = Tag::List(vec![deep]);
    }
    assert!(NbtPathModel::is_too_deep(&deep, 0));
    let mut tag = Tag::Compound(Vec::new());
    assert_eq!(
        NbtPathModel::of("foo").unwrap().set(&mut tag, deep),
        Err(NbtPathError::DataTooDeep)
    );
}

#[test]
fn pattern_values_are_integers_strings_or_compounds() {
    let path = NbtPathModel::of("foo{a:1,b:\"x y\",c:{d=e},f:1x}").unwrap();
    assert_eq!(path.nodes().len(), 1);
    assert_eq!(
        path.nodes()[0],
        PathNodeModel::MatchObject {
            name: "foo".to_string(),
            pattern: compound(vec![
                ("a", Tag::Int(1)),
                ("b", Tag::String("x y".to_string())),
                ("c", compound(vec![("d", Tag::String("e".to_string()))])),
                ("f", Tag::String("1x".to_string())),
            ]),
        }
    );
}

#[test]
fn malformed_nodes_are_invalid() {
    assert_eq!(NbtPathModel::of("[x]"), Err(NbtPathError::InvalidNode));
    assert_eq!(NbtPathModel::of("foo]"), Err(NbtPathError::InvalidNode));
    assert_eq!(NbtPathModel::of("\"foo"), Err(NbtPathError::InvalidNode));
    assert_eq!(NbtPathModel::of("''"), Err(NbtPathError::InvalidNode));
    assert_eq!(NbtPathModel::of("foo{a:1"), Err(NbtPathError::InvalidNode));
    let quoted = NbtPathModel::of("'a b'.c rest").unwrap();
    assert_eq!(quoted.as_string(), "'a b'.c");
    assert_eq!(quoted.nodes().len(), 2);
    assert_eq!(quoted.nodes()[0], PathNodeModel::CompoundChild("a b".to_string()));
    assert_eq!(quoted.nodes()[1], PathNodeModel::CompoundChild("c".to_string()));
}
