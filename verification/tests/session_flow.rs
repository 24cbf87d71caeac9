use ph2mapdl::config::install_path;
use ph2mapdl::config::patch_config;
use ph2mapdl::config::u64_to_dec;
use ph2mapdl::config::workshop_link;
use ph2mapdl::select::menu_choice;
use ph2mapdl::select::on_menu;
use ph2mapdl::select::on_page;
use ph2mapdl::select::on_pick;
use ph2mapdl::select::plan_selection;
use ph2mapdl::select::InstallPlan;
use ph2mapdl::select::ItemSelectorStyle;
use ph2mapdl::select::LoopState;
use ph2mapdl::select::MenuChoice;
use ph2mapdl::session::apply_response;
use ph2mapdl::session::build_items;
use ph2mapdl::session::distinct_creators;
use ph2mapdl::session::new_search;
use ph2mapdl::session::CatalogEntry;
use ph2mapdl::session::CatalogResponse;
use ph2mapdl::session::CreatorCache;
use ph2mapdl::session::SearchQuery;

fn entry(creator: u64, id: u64, title: &str, description: &str) -> CatalogEntry {
    CatalogEntry {
        creator,
        id,
        title: title.to_string(),
        description: description.to_string(),
        favorited: 7,
        subscribed: 9,
    }
}

#[test]
fn new_search_resets_the_cursor() {
    let mut q = SearchQuery::new(5);
    assert_eq!(q.cursor, "*");
    q.advance_cursor("AAAA==".to_string());
    assert_eq!(q.cursor, "AAAA==");
    new_search(&mut q, "castle".to_string());
    assert_eq!(q.search_text, "castle");
    assert_eq!(q.cursor, "*");
    assert_eq!(q.page_size, 5);
}

#[test]
fn consecutive_fetches_use_the_response_cursor() {
    let mut q = SearchQuery::new(3);
    let first = apply_response(
        &mut q,
        CatalogResponse { next_cursor: "B1==".to_string(), entries: Some(Vec::new()) },
    );
    assert!(first.is_some());
    assert_eq!(q.cursor, "B1==");
    let second = apply_response(
        &mut q,
        CatalogResponse { next_cursor: "B2==".to_string(), entries: None },
    );
    assert!(second.is_none());
    // stored unconditionally, even for the empty page
    assert_eq!(q.cursor, "B2==");
}

#[test]
fn scenario_empty_response_prompts_for_revision() {
    let mut q = SearchQuery::new(5);
    let entries = apply_response(
        &mut q,
        CatalogResponse { next_cursor: "C==".to_string(), entries: None },
    );
    assert!(entries.is_none());
    let state = on_page(None);
    assert!(matches!(state, LoopState::Revising));
}

#[test]
fn scenario_shared_creator_resolved_once() {
    let entries = vec![
        entry(100, 11, "first map", "one"),
        entry(100, 12, "second map", "two"),
    ];
    let ids = distinct_creators(&entries);
    assert_eq!(ids, vec![100]);
    // one lookup call answers the single deduplicated ID
    let answer = vec![(100u64, "Alice".to_string())];
    let cache = CreatorCache::resolve(&ids, answer).unwrap();
    let items = build_items(&entries, &cache, &vec![false, true]).unwrap();
    assert_eq!(items.len(), 2);
    assert_eq!(items[0].creator, "Alice");
    assert_eq!(items[1].creator, "Alice");
    assert_eq!(items[0].id, 11);
    assert!(!items[0].installed);
    assert!(items[1].installed);
}

#[test]
fn unresolved_creator_fails_atomically() {
    let ids = vec![5u64, 6u64];
    let answer = vec![(5u64, "Bob".to_string())];
    let err = CreatorCache::resolve(&ids, answer).unwrap_err();
    assert_eq!(err.id, 6);
}

#[test]
fn items_carry_normalized_descriptions() {
    let entries = vec![entry(1, 2, "t", "Hello [b]world[/b][*]first\n\n[*]second\n\nthird")];
    let cache = CreatorCache::resolve(&vec![1], vec![(1u64, "Carol".to_string())]).unwrap();
    let items = build_items(&entries, &cache, &vec![false]).unwrap();
    assert_eq!(items[0].description, "Hello world  - first\n  - second");
    assert_eq!(items[0].title, "t");
    assert_eq!(items[0].favorited, 7);
    assert_eq!(items[0].subscribed, 9);
}

#[test]
fn picking_an_item_selects_it() {
    let entries = vec![entry(1, 21, "a", "d"), entry(1, 22, "b", "d")];
    let cache = CreatorCache::resolve(&vec![1], vec![(1u64, "N".to_string())]).unwrap();
    let items = build_items(&entries, &cache, &vec![false, false]).unwrap();
    match on_pick(items, 1) {
        LoopState::Selected(it) => assert_eq!(it.id, 22),
        _ => panic!("expected a selection"),
    }
}

#[test]
fn menu_rows_map_to_choices() {
    assert!(matches!(menu_choice(None), MenuChoice::Quit));
    assert!(matches!(menu_choice(Some(0)), MenuChoice::Quit));
    assert!(matches!(menu_choice(Some(1)), MenuChoice::LoadMore));
    assert!(matches!(menu_choice(Some(2)), MenuChoice::ModifySearch));
    assert!(matches!(on_menu(&MenuChoice::Quit), LoopState::Quitting));
    assert!(matches!(on_menu(&MenuChoice::LoadMore), LoopState::Searching));
    assert!(matches!(on_menu(&MenuChoice::ModifySearch), LoopState::Revising));
}

#[test]
fn selection_plans_cover_all_switches() {
    assert!(matches!(plan_selection(false, true, false), InstallPlan::NoAction));
    assert!(matches!(plan_selection(true, true, true), InstallPlan::NoAction));
    assert!(matches!(plan_selection(true, false, false), InstallPlan::KeepExisting));
    assert!(matches!(plan_selection(false, false, false), InstallPlan::Download));
    assert!(matches!(plan_selection(false, false, true), InstallPlan::Download));
    assert!(matches!(plan_selection(true, false, true), InstallPlan::Redownload));
}

#[test]
fn prompt_rows_carry_the_usage_hint() {
    let style = ItemSelectorStyle;
    let row = style.format_select_prompt_item("My Map");
    assert_eq!(
        row,
        "Select Map using arrow keys. Enter to select. Esc for more options\n\nMy Map"
    );
}

#[test]
fn decimal_formatting_is_exact() {
    assert_eq!(u64_to_dec(0).iter().collect::<String>(), "0");
    assert_eq!(u64_to_dec(7).iter().collect::<String>(), "7");
    assert_eq!(u64_to_dec(1521580).iter().collect::<String>(), "1521580");
    assert_eq!(u64_to_dec(u64::MAX).iter().collect::<String>(), "18446744073709551615");
}

#[test]
fn link_and_install_path_are_exact() {
    assert_eq!(
        workshop_link(42),
        "https://steamcommunity.com/sharedfiles/filedetails/?id=42"
    );
    assert_eq!(
        install_path("/srv/game", 42),
        "/srv/game/steamapps/workshop/content/1521580/42"
    );
}

#[test]
fn config_patch_rewrites_both_keys_only() {
    let content = "[Advanced]\nWorkshopMapID=1\n WorkshopFolderFullPath = old\n; note\nother=3\n";
    let out = patch_config(content, 99, "/srv/game");
    assert_eq!(
        out,
        "[Advanced]\nWorkshopMapID=99\nWorkshopFolderFullPath=/srv/game/steamapps/workshop/content/1521580/99\n; note\nother=3"
    );
}

#[test]
fn config_patch_keeps_unrelated_text_verbatim() {
    let content = "no equals here\nWorkshopMapID=5";
    let out = patch_config(content, 6, "/d");
    assert_eq!(out, "no equals here\nWorkshopMapID=6");
}
