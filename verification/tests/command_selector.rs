use lib::command_selector::{matches_filters, Inverted, RangeI32, Selector, SelectorBase, SelectorError, SelectorSort};

#[test]
fn selector_parse_reads_bases_limits_sorts_and_ranges() {
    let selector =
        Selector::parse("@e[type=minecraft:zombie,distance=..10,limit=2,sort=nearest]").unwrap();
    assert_eq!(selector.base, SelectorBase::AllEntities);
    assert!(selector.includes_entities);
    assert_eq!(selector.limit, 2);
    assert_eq!(selector.sort, SelectorSort::Nearest);
    assert_eq!(selector.distance.unwrap().max, Some("10".to_string()));
    assert_eq!(
        selector.entity_type,
        Some(Inverted {
            value: "minecraft:zombie".to_string(),
            inverted: false,
        })
    );
    assert_eq!(Selector::parse("@a[limit=0]"), Err(SelectorError::InvalidLimit));
}

#[test]
fn selector_parse_heads_and_names() {
    assert_eq!(Selector::parse(""), Err(SelectorError::Empty));
    assert_eq!(Selector::parse("@x"), Err(SelectorError::InvalidBase));
    assert_eq!(Selector::parse("@n"), Err(SelectorError::InvalidBase));
    assert_eq!(Selector::parse("@e[limit=1"), Err(SelectorError::InvalidBase));
    let name = Selector::parse("Steve").unwrap();
    assert_eq!(name.base, SelectorBase::Name("Steve".to_string()));
    assert_eq!(name.limit, 1);
    assert!(name.includes_entities);
    let me = Selector::parse("@s").unwrap();
    assert!(me.current_entity);
    assert_eq!(me.limit, 1);
    let all = Selector::parse("@a").unwrap();
    assert_eq!(all.limit, usize::MAX);
    assert!(!all.includes_entities);
    let random = Selector::parse("@r").unwrap();
    assert_eq!(random.sort, SelectorSort::Random);
    let nearest = Selector::parse("@p[]").unwrap();
    assert_eq!(nearest.sort, SelectorSort::Nearest);
}

#[test]
fn selector_options_check_values() {
    let s = Selector::parse("@e[ name= !Bob , tag=boss, dx=2.5, y=-1e3]").unwrap();
    assert_eq!(s.name, Some(Inverted { value: " !Bob".to_string(), inverted: false }));
    assert_eq!(Selector::parse("@e[name =Bob]"), Err(SelectorError::InvalidOption("name ".to_string())));
    assert_eq!(s.tag, Some(Inverted { value: "boss".to_string(), inverted: false }));
    assert_eq!(s.dx, Some("2.5".to_string()));
    assert_eq!(s.y, Some("-1e3".to_string()));
    assert!(s.world_limited);

    let s = Selector::parse("@e[name=!Bob,x=inf]").unwrap();
    assert_eq!(s.name, Some(Inverted { value: "Bob".to_string(), inverted: true }));
    assert_eq!(s.x, Some("inf".to_string()));

    assert_eq!(Selector::parse("@e[x=1.2.3]"), Err(SelectorError::InvalidRange("1.2.3".to_string())));
    assert_eq!(Selector::parse("@e[distance=1..x]"), Err(SelectorError::InvalidRange("x".to_string())));
    assert_eq!(Selector::parse("@e[sort=sideways]"), Err(SelectorError::InvalidOption("sort=sideways".to_string())));
    assert_eq!(Selector::parse("@e[color=red]"), Err(SelectorError::InvalidOption("color".to_string())));
    assert_eq!(Selector::parse("@e[loose]"), Err(SelectorError::InvalidOption("loose".to_string())));
    assert_eq!(Selector::parse("@e[limit=+3]").unwrap().limit, 3);
}

#[test]
fn selector_maps_read_scores_and_nbt() {
    let s = Selector::parse("@a[scores={kills=1..,deaths=..3,level=5},nbt={OnGround:1b}]").unwrap();
    assert_eq!(s.scores.len(), 3);
    assert_eq!(s.scores.get("kills"), Some(&RangeI32 { min: Some(1), max: None }));
    assert_eq!(s.scores.get("deaths"), Some(&RangeI32 { min: None, max: Some(3) }));
    assert_eq!(s.scores.get("level"), Some(&RangeI32 { min: Some(5), max: Some(5) }));
    assert_eq!(s.nbt.get("OnGround"), Some(&"1b".to_string()));

    assert_eq!(Selector::parse("@a[scores={kills}]"), Err(SelectorError::InvalidOption("kills".to_string())));
    assert_eq!(Selector::parse("@a[scores=kills]"), Err(SelectorError::InvalidOption("kills".to_string())));
    assert_eq!(Selector::parse("@a[scores={k=x}]"), Err(SelectorError::InvalidRange("x".to_string())));
    assert_eq!(Selector::parse("@a[scores={}]").unwrap().scores.len(), 0);
}

fn pig(name: &str, tags: &[&str]) -> lib::command_selector::EntityRecord {
    let mut scores = lib::str_map::StrMap::new();
    scores.insert("kills".to_string(), 3);
    lib::command_selector::EntityRecord {
        name: name.to_string(),
        entity_type: "minecraft:pig".to_string(),
        uuid: format!("{name}-uuid"),
        player: false,
        level: "overworld".to_string(),
        team: None,
        tags: tags.iter().map(|t| t.to_string()).collect(),
        scores,
        nbt: lib::str_map::StrMap::new(),
        predicates: Vec::new(),
    }
}

#[test]
fn selector_filters_apply_kind_tag_score_and_float_outcomes() {
    let tagged = Selector::parse("@e[tag=pet,scores={kills=2..}]").unwrap();
    assert!(matches_filters(&tagged, &pig("Bo", &["pet"]), "overworld", None, true, true));
    assert!(!matches_filters(&tagged, &pig("Bo", &["wild"]), "overworld", None, true, true));
    assert!(!matches_filters(&tagged, &pig("Bo", &["pet"]), "overworld", None, false, true));
    assert!(!matches_filters(&tagged, &pig("Bo", &["pet"]), "overworld", None, true, false));
    let players = Selector::parse("@a").unwrap();
    assert!(!matches_filters(&players, &pig("Bo", &[]), "overworld", None, true, true));
    let named = Selector::parse("Bo").unwrap();
    assert!(matches_filters(&named, &pig("Bo", &[]), "overworld", None, false, false));
    assert!(matches_filters(&named, &pig("Cy", &[]), "overworld", None, true, true) == false);
}
