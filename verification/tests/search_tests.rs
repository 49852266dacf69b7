use kanttiinit::search::{
    filter_and_sort_restaurants, filter_menus_and_format_to_restaurants_with_menus,
    get_menus_by_restaurants, join_ids, menu_request_ids, menu_target_date, DayMenu, MenuEntry,
    MenuItem, Restaurant, RestaurantMenus,
};

fn restaurant(id: u8, name: &str, hours: Vec<Option<String>>) -> Restaurant {
    Restaurant {
        opening_hours: hours,
        id,
        name: name.to_string(),
        url: format!("https://example.invalid/{}", id),
        address: format!("Street {}", id),
    }
}

fn week_of(monday: Option<&str>) -> Vec<Option<String>> {
    let mut v: Vec<Option<String>> = vec![None; 7];
    v[0] = monday.map(|s| s.to_string());
    v
}

fn item(title: &str, properties: &[&str]) -> MenuItem {
    MenuItem {
        title: title.to_string(),
        properties: properties.iter().map(|p| p.to_string()).collect(),
    }
}

#[test]
fn sorts_by_name_for_any_input_order() {
    for names in [
        ["Zeppelin", "Alvari", "Maukas"],
        ["Alvari", "Maukas", "Zeppelin"],
        ["Maukas", "Zeppelin", "Alvari"],
    ] {
        let input: Vec<Restaurant> = names
            .iter()
            .enumerate()
            .map(|(i, n)| restaurant(i as u8, n, week_of(None)))
            .collect();
        let sorted = filter_and_sort_restaurants(input, false, 0, 0);
        let got: Vec<&str> = sorted.iter().map(|r| r.name.as_str()).collect();
        assert_eq!(got, vec!["Alvari", "Maukas", "Zeppelin"]);
    }
}

#[test]
fn sort_is_bytewise() {
    // Byte-wise comparison puts all upper-case letters before lower-case.
    let input = vec![
        restaurant(1, "apple", week_of(None)),
        restaurant(2, "Banana", week_of(None)),
    ];
    let sorted = filter_and_sort_restaurants(input, false, 0, 0);
    let got: Vec<&str> = sorted.iter().map(|r| r.name.as_str()).collect();
    assert_eq!(got, vec!["Banana", "apple"]);
}

#[test]
fn hide_closed_keeps_only_open_restaurants() {
    let input = vec![
        restaurant(1, "Open", week_of(Some("08:00-16:00"))),
        restaurant(2, "TooEarly", week_of(Some("12:00-16:00"))),
        restaurant(3, "Malformed", week_of(Some("whenever"))),
        restaurant(4, "NoHours", week_of(None)),
        restaurant(5, "Empty", Vec::new()),
    ];
    // Monday, 09:00.
    let kept = filter_and_sort_restaurants(input, true, 0, 9 * 60);
    let got: Vec<&str> = kept.iter().map(|r| r.name.as_str()).collect();
    assert_eq!(got, vec!["Open"]);
}

#[test]
fn hide_closed_off_keeps_everything() {
    let input = vec![
        restaurant(1, "B", week_of(Some("whenever"))),
        restaurant(2, "A", Vec::new()),
    ];
    let kept = filter_and_sort_restaurants(input, false, 3, 100);
    assert_eq!(kept.len(), 2);
    assert_eq!(kept[0].name, "A");
    assert_eq!(kept[1].name, "B");
}

#[test]
fn limit_caps_ids_to_first_n_in_order() {
    let input: Vec<Restaurant> = (1u8..=5)
        .map(|i| restaurant(i * 10, &format!("R{}", i), week_of(None)))
        .collect();
    let ids = menu_request_ids(&input, Some(3));
    assert_eq!(ids, vec![10, 20, 30]);
}

#[test]
fn limit_larger_than_count_keeps_all() {
    let input: Vec<Restaurant> = (1u8..=5)
        .map(|i| restaurant(i, &format!("R{}", i), week_of(None)))
        .collect();
    assert_eq!(menu_request_ids(&input, Some(10)), vec![1, 2, 3, 4, 5]);
    assert_eq!(menu_request_ids(&input, None), vec![1, 2, 3, 4, 5]);
    assert_eq!(menu_request_ids(&input, Some(5)), vec![1, 2, 3, 4, 5]);
}

#[test]
fn id_list_is_comma_joined_decimals() {
    assert_eq!(join_ids(&vec![1, 12, 123]).as_str(), "1,12,123");
    assert_eq!(join_ids(&vec![0]).as_str(), "0");
    assert_eq!(join_ids(&vec![255, 7]).as_str(), "255,7");
    assert_eq!(join_ids(&Vec::new()).as_str(), "");
}

fn menus_fixture() -> Vec<RestaurantMenus> {
    vec![
        RestaurantMenus {
            restaurant_id: "1".to_string(),
            days: vec![
                DayMenu { date: "2024-05-06".to_string(), items: vec![item("Soup", &["vegan"])] },
                DayMenu { date: "2024-05-07".to_string(), items: vec![item("Stew", &[])] },
            ],
        },
        RestaurantMenus {
            restaurant_id: "2".to_string(),
            days: vec![DayMenu { date: "2024-05-07".to_string(), items: vec![item("Fish", &[])] }],
        },
    ]
}

#[test]
fn flatten_keeps_only_exact_target_date() {
    let menus = get_menus_by_restaurants(menus_fixture(), &"2024-05-06".to_string());
    assert_eq!(menus.len(), 1);
    assert_eq!(menus[0].restaurant_id, "1");
    assert_eq!(menus[0].items.len(), 1);
    assert_eq!(menus[0].items[0].title, "Soup");
}

#[test]
fn flatten_misses_no_entry_for_other_dates() {
    let menus = get_menus_by_restaurants(menus_fixture(), &"2024-05-08".to_string());
    assert!(menus.is_empty());
    let menus = get_menus_by_restaurants(menus_fixture(), &"2024-05-07".to_string());
    let ids: Vec<&str> = menus.iter().map(|m| m.restaurant_id.as_str()).collect();
    assert_eq!(ids, vec!["1", "2"]);
}

#[test]
fn keyword_filter_keeps_matching_titles_only() {
    let restaurants = vec![restaurant(1, "Alvari", week_of(None))];
    let menus = vec![MenuEntry {
        restaurant_id: "1".to_string(),
        items: vec![item("Greek Salad", &["fresh"]), item("Soup", &["vegan"])],
    }];
    let out = filter_menus_and_format_to_restaurants_with_menus(
        &restaurants,
        &menus,
        &Some("salad".to_string()),
    );
    assert_eq!(out.len(), 1);
    let kept = out[0].formatted_menu_items.as_ref().unwrap();
    // Case-sensitive: "salad" does not match "Greek Salad".
    assert!(kept.is_empty());

    let out = filter_menus_and_format_to_restaurants_with_menus(
        &restaurants,
        &menus,
        &Some("Salad".to_string()),
    );
    let kept = out[0].formatted_menu_items.as_ref().unwrap();
    assert_eq!(kept.len(), 1);
    assert_eq!(kept[0].title, "Greek Salad");
    assert_eq!(kept[0].properties, "fresh");
}

#[test]
fn no_filter_keeps_all_items() {
    let restaurants = vec![restaurant(1, "Alvari", week_of(None))];
    let menus = vec![MenuEntry {
        restaurant_id: "1".to_string(),
        items: vec![item("Greek Salad", &[]), item("Soup", &["vegan", "hot"])],
    }];
    let out = filter_menus_and_format_to_restaurants_with_menus(&restaurants, &menus, &None);
    let kept = out[0].formatted_menu_items.as_ref().unwrap();
    assert_eq!(kept.len(), 2);
    assert_eq!(kept[1].title, "Soup");
    assert_eq!(kept[1].properties, "vegan, hot");
}

#[test]
fn absent_restaurant_gets_no_menu() {
    let restaurants = vec![restaurant(9, "Lonely", week_of(None))];
    let menus: Vec<MenuEntry> = Vec::new();
    let out = filter_menus_and_format_to_restaurants_with_menus(&restaurants, &menus, &None);
    assert!(out[0].formatted_menu_items.is_none());
}

#[test]
fn end_to_end_join_of_restaurants_and_menus() {
    let restaurants = vec![
        restaurant(1, "Alvari", week_of(Some("10:30-14:00"))),
        restaurant(2, "Zeppelin", week_of(None)),
    ];
    let menus = vec![MenuEntry {
        restaurant_id: "1".to_string(),
        items: vec![item("Soup", &["vegan"])],
    }];
    let out = filter_menus_and_format_to_restaurants_with_menus(&restaurants, &menus, &None);
    assert_eq!(out.len(), 2);
    assert_eq!(out[0].name, "Alvari");
    assert_eq!(out[0].opening_hours.as_deref(), Some("10:30-14:00"));
    let alvari_menu = out[0].formatted_menu_items.as_ref().unwrap();
    assert_eq!(alvari_menu.len(), 1);
    assert_eq!(alvari_menu[0].title, "Soup");
    assert_eq!(alvari_menu[0].properties, "vegan");
    assert_eq!(out[1].name, "Zeppelin");
    assert!(out[1].opening_hours.is_none());
    assert!(out[1].formatted_menu_items.is_none());
}

#[test]
fn opening_hours_field_reads_weekday_zero() {
    // The display record reads index 0 of the week even when menus are for
    // another day; pinned here as a golden case.
    let mut hours: Vec<Option<String>> = vec![None; 7];
    hours[0] = Some("08:00-10:00".to_string());
    hours[2] = Some("11:00-12:00".to_string());
    let restaurants = vec![restaurant(1, "A", hours)];
    let out = filter_menus_and_format_to_restaurants_with_menus(&restaurants, &Vec::new(), &None);
    assert_eq!(out[0].opening_hours.as_deref(), Some("08:00-10:00"));
}

#[test]
fn target_date_has_iso_shape() {
    for offset in [0, 1, -1, 7, 365] {
        let d = menu_target_date(offset);
        let chars: Vec<char> = d.chars().collect();
        let n = chars.len();
        assert!(n >= 10, "too short: {}", d);
        assert_eq!(chars[n - 3], '-', "bad date: {}", d);
        assert_eq!(chars[n - 6], '-', "bad date: {}", d);
        for back in [1, 2, 4, 5, 7, 8, 9, 10] {
            assert!(chars[n - back].is_ascii_digit(), "bad date: {}", d);
        }
    }
}
