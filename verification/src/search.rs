//! The query-filter-format pipeline: restaurant records, the closed-status
//! filter, alphabetical ordering, the menu request, the per-date flattening
//! of the raw menu response, and the keyword filter with display formatting.
use vstd::prelude::*;
use crate::clock;
use crate::hours::spec_is_open;
use crate::hours::is_open_now;
use crate::text::{lex_le, is_substring_of, dec_str_u8, join_s, iso_date_shaped};
use crate::text::{lex_le_str, contains_substr, u8_to_string, join_strings};

verus! {

broadcast use vstd::seq_lib::group_to_multiset_ensures;

/// A restaurant as the restaurants endpoint reports it. `opening_hours`
/// holds one optional `"HH:MM-HH:MM"` string per weekday, Monday first.
pub struct Restaurant {
    pub opening_hours: Vec<Option<String>>,
    pub id: u8,
    pub name: String,
    pub url: String,
    pub address: String,
}

/// A menu item: a title and its dietary/info tags.
pub struct MenuItem {
    pub title: String,
    pub properties: Vec<String>,
}

/// One date's items for a restaurant, inside the raw menus response.
pub struct DayMenu {
    pub date: String,
    pub items: Vec<MenuItem>,
}

/// One restaurant's slice of the raw menus response: its id as the endpoint
/// writes it (a decimal string) and its per-date menus.
pub struct RestaurantMenus {
    pub restaurant_id: String,
    pub days: Vec<DayMenu>,
}

/// One restaurant's menu after flattening to the single target date.
pub struct MenuEntry {
    pub restaurant_id: String,
    pub items: Vec<MenuItem>,
}

/// A menu item ready for display: the title and the tags joined with ", ".
pub struct FormattedMenuItem {
    pub title: String,
    pub properties: String,
}

/// A display record: one restaurant joined with its formatted menu.
/// `formatted_menu_items` is `None` when the menus response had no data for
/// this restaurant and date (rendered as "no menu"); it is `Some` of an
/// empty sequence when nothing survived the keyword filter.
pub struct RestaurantWithMenu {
    pub name: String,
    pub opening_hours: Option<String>,
    pub address: String,
    pub url: String,
    pub formatted_menu_items: Option<Vec<FormattedMenuItem>>,
}

/// The mathematical value of a [`FormattedMenuItem`].
pub ghost struct FormattedMenuItemV {
    pub title: Seq<char>,
    pub properties: Seq<char>,
}

impl View for FormattedMenuItem {
    type V = FormattedMenuItemV;

    open spec fn view(&self) -> FormattedMenuItemV {
        FormattedMenuItemV { title: self.title@, properties: self.properties@ }
    }
}

/// The mathematical value of a [`RestaurantWithMenu`].
pub ghost struct RestaurantWithMenuV {
    pub name: Seq<char>,
    pub opening_hours: Option<Seq<char>>,
    pub address: Seq<char>,
    pub url: Seq<char>,
    pub formatted_menu_items: Option<Seq<FormattedMenuItemV>>,
}

impl View for RestaurantWithMenu {
    type V = RestaurantWithMenuV;

    open spec fn view(&self) -> RestaurantWithMenuV {
        RestaurantWithMenuV {
            name: self.name@,
            opening_hours: self.opening_hours.deep_view(),
            address: self.address@,
            url: self.url@,
            formatted_menu_items: match self.formatted_menu_items {
                Some(v) => Some(v@.map_values(|f: FormattedMenuItem| f@)),
                None => None,
            },
        }
    }
}

/// The restaurant's opening-hours entry for weekday `weekday` (0 = Monday);
/// `None` when the sequence has no entry at that index.
pub open spec fn weekday_entry(r: Restaurant, weekday: int) -> Option<Seq<char>> {
    if 0 <= weekday < r.opening_hours@.len() {
        r.opening_hours.deep_view()[weekday]
    } else {
        None
    }
}

/// The closed-status filter keeps `r` at minute `now` of weekday `weekday`:
/// either the filter is off, or the restaurant's entry for the day exists,
/// parses, and its window contains `now`. A missing or malformed entry is
/// treated as closed, never as an error.
pub open spec fn keeps_restaurant(r: Restaurant, hide_closed: bool, weekday: int, now: int) -> bool {
    !hide_closed || spec_is_open(weekday_entry(r, weekday), now)
}

/// The restaurants of `s` that the closed-status filter keeps, in order.
pub open spec fn open_filter(s: Seq<Restaurant>, hide_closed: bool, weekday: int, now: int) -> Seq<
    Restaurant,
> {
    s.filter(|x: Restaurant| keeps_restaurant(x, hide_closed, weekday, now))
}

/// Non-decreasing by name, byte-wise.
pub open spec fn sorted_by_name(s: Seq<Restaurant>) -> bool {
    forall|i: int, j: int|
        #![trigger s[i], s[j]]
        0 <= i <= j < s.len() ==> lex_le(s[i].name@, s[j].name@)
}

/// Applies the closed-status filter for the given weekday and time of day,
/// then sorts the kept restaurants by name.
///
/// The result is exactly the kept restaurants (as a multiset: nothing added,
/// nothing lost), in non-decreasing name order.
pub fn filter_and_sort_restaurants(
    restaurants: Vec<Restaurant>,
    hide_closed: bool,
    weekday_index: usize,
    now_minutes: u32,
) -> (r: Vec<Restaurant>)
    ensures
        sorted_by_name(r@),
        r@.to_multiset() == open_filter(
            restaurants@,
            hide_closed,
            weekday_index as int,
            now_minutes as int,
        ).to_multiset(),
        !hide_closed ==> r@.to_multiset() == restaurants@.to_multiset(),
{
    proof {
        if !hide_closed {
            lemma_open_filter_off(restaurants@, weekday_index as int, now_minutes as int);
        }
    }
    let kept = filter_open(restaurants, hide_closed, weekday_index, now_minutes);
    sort_restaurants_by_name(kept)
}

/// With the closed-status filter off, filtering changes nothing.
pub proof fn lemma_open_filter_off(s: Seq<Restaurant>, weekday: int, now: int)
    ensures
        open_filter(s, false, weekday, now) == s,
    decreases s.len(),
{
    reveal(Seq::filter);
    if s.len() > 0 {
        lemma_open_filter_off(s.drop_last(), weekday, now);
        assert(open_filter(s, false, weekday, now) =~= s);
    } else {
        assert(open_filter(s, false, weekday, now) =~= s);
    }
}

/// Keeps the restaurants that the closed-status filter keeps, in order.
fn filter_open(
    restaurants: Vec<Restaurant>,
    hide_closed: bool,
    weekday_index: usize,
    now_minutes: u32,
) -> (r: Vec<Restaurant>)
    ensures
        r@ == open_filter(restaurants@, hide_closed, weekday_index as int, now_minutes as int),
{
    let ghost orig: Seq<Restaurant> = restaurants@;
    let ghost wd = weekday_index as int;
    let ghost nm = now_minutes as int;
    let mut rest = restaurants;
    let mut out: Vec<Restaurant> = Vec::new();
    proof {
        assert(rest@ =~= orig.skip(0));
        assert(out@ =~= open_filter(orig.take(0), hide_closed, wd, nm)) by {
            reveal(Seq::filter);
            assert(orig.take(0) =~= Seq::<Restaurant>::empty());
        }
    }
    while rest.len() > 0
        invariant
            rest@.len() <= orig.len(),
            rest@ == orig.skip(orig.len() - rest@.len()),
            out@ == open_filter(orig.take(orig.len() - rest@.len()), hide_closed, wd, nm),
            wd == weekday_index as int,
            nm == now_minutes as int,
        decreases rest.len(),
    {
        let ghost i = orig.len() - rest@.len();
        let x = rest.remove(0);
        proof {
            assert(x == orig[i]);
            assert(rest@ =~= orig.skip(i + 1));
        }
        let keep = if hide_closed {
            let entry: Option<String> = if weekday_index < x.opening_hours.len() {
                match &x.opening_hours[weekday_index] {
                    Some(s) => Some(s.clone()),
                    None => None,
                }
            } else {
                None
            };
            proof {
                assert(entry.deep_view() == weekday_entry(x, wd));
            }
            is_open_now(&entry, now_minutes)
        } else {
            true
        };
        proof {
            assert(keep == keeps_restaurant(orig[i], hide_closed, wd, nm));
        }
        if keep {
            out.push(x);
        }
        proof {
            reveal(Seq::filter);
            assert(orig.take(i + 1).drop_last() =~= orig.take(i));
            assert(orig.take(i + 1).last() == orig[i]);
            assert(out@ == open_filter(orig.take(i + 1), hide_closed, wd, nm));
        }
    }
    proof {
        assert(orig.take(orig.len() as int) =~= orig);
    }
    out
}

/// Sorts restaurants by name, byte-wise non-decreasing: the result is a
/// reordering (equal as a multiset) of the input.
fn sort_restaurants_by_name(input: Vec<Restaurant>) -> (r: Vec<Restaurant>)
    ensures
        sorted_by_name(r@),
        r@.to_multiset() == input@.to_multiset(),
        r@.len() == input@.len(),
{
    let ghost orig: Seq<Restaurant> = input@;
    let mut rest = input;
    let mut out: Vec<Restaurant> = Vec::new();
    proof {
        assert(rest@ =~= orig.skip(0));
        assert(out@.to_multiset() =~= orig.take(0).to_multiset()) by {
            assert(orig.take(0) =~= Seq::<Restaurant>::empty());
            assert(out@ =~= Seq::<Restaurant>::empty());
        }
    }
    while rest.len() > 0
        invariant
            rest@.len() <= orig.len(),
            rest@ == orig.skip(orig.len() - rest@.len()),
            sorted_by_name(out@),
            out@.to_multiset() == orig.take(orig.len() - rest@.len()).to_multiset(),
            out@.len() + rest@.len() == orig.len(),
        decreases rest.len(),
    {
        let ghost i = orig.len() - rest@.len();
        let x = rest.remove(0);
        proof {
            assert(x == orig[i]);
            assert(rest@ =~= orig.skip(i + 1));
        }
        let mut p: usize = 0;
        while p < out.len() && lex_le_str(out[p].name.as_str(), x.name.as_str())
            invariant
                0 <= p <= out@.len(),
                forall|k: int| 0 <= k < p ==> lex_le(#[trigger] out@[k].name@, x.name@),
            decreases out.len() - p,
        {
            p += 1;
        }
        proof {
            if p < out@.len() {
                crate::text::lemma_lex_le_total(out@[p as int].name@, x.name@);
                assert(lex_le(x.name@, out@[p as int].name@));
            }
            let newseq = out@.insert(p as int, x);
            assert forall|a: int, b: int|
                #![trigger newseq[a], newseq[b]]
                0 <= a <= b < newseq.len() implies lex_le(
                newseq[a].name@,
                newseq[b].name@,
            ) by {
                crate::text::lemma_lex_le_total(x.name@, x.name@);
                if b < p {
                    assert(newseq[a] == out@[a]);
                    assert(newseq[b] == out@[b]);
                    assert(lex_le(out@[a].name@, out@[b].name@));
                } else if b == p {
                    assert(newseq[b] == x);
                    if a < p {
                        assert(newseq[a] == out@[a]);
                        assert(lex_le(out@[a].name@, x.name@));
                    }
                } else {
                    assert(newseq[b] == out@[b - 1]);
                    assert(p <= b - 1 < out@.len());
                    if a < p {
                        assert(newseq[a] == out@[a]);
                        assert(lex_le(out@[a].name@, out@[b - 1].name@));
                    } else if a == p {
                        assert(lex_le(x.name@, out@[p as int].name@));
                        assert(lex_le(out@[p as int].name@, out@[b - 1].name@));
                        crate::text::lemma_lex_le_trans(
                            x.name@,
                            out@[p as int].name@,
                            out@[b - 1].name@,
                        );
                    } else {
                        assert(newseq[a] == out@[a - 1]);
                        assert(lex_le(out@[a - 1].name@, out@[b - 1].name@));
                    }
                }
            }
            assert(orig.take(i + 1).drop_last() =~= orig.take(i));
            assert(orig.take(i + 1) =~= orig.take(i).push(orig[i]));
        }
        out.insert(p, x);
    }
    proof {
        assert(orig.take(orig.len() as int) =~= orig);
        broadcast use vstd::seq_lib::to_multiset_len;
    }
    out
}

/// Filters the restaurants by the current closed status when asked, and
/// returns them sorted alphabetically by name.
///
/// The weekday and the time of day are read from the local clock, so with
/// the filter on, the exact kept set cannot be pinned down here; whatever
/// the clock read, the result is some closed-status filtering of the input,
/// sorted. [`filter_and_sort_restaurants`] carries the exact contract for a
/// given clock reading. The free-text query itself is resolved by the
/// restaurants endpoint, which hands this function its response.
pub fn get_restaurants_by_query_filtered_by_closed_status_and_ordered_alphabetically(
    restaurants: Vec<Restaurant>,
    hide_closed: bool,
) -> (r: Vec<Restaurant>)
    ensures
        sorted_by_name(r@),
        !hide_closed ==> r@.to_multiset() == restaurants@.to_multiset(),
        hide_closed ==> exists|wd: int, nm: int|
            0 <= wd < 7 && 0 <= nm < 1440 && r@.to_multiset() == #[trigger] open_filter(
                restaurants@,
                true,
                wd,
                nm,
            ).to_multiset(),
{
    let ghost orig: Seq<Restaurant> = restaurants@;
    let wd = clock::now_weekday_index();
    let nm = clock::now_minutes_of_day();
    let r = filter_and_sort_restaurants(restaurants, hide_closed, wd, nm);
    proof {
        if hide_closed {
            assert(r@.to_multiset() == open_filter(orig, true, wd as int, nm as int).to_multiset());
        }
    }
    r
}

/// The ids sent to the menus endpoint: all of them, or just the first
/// `limit` when a smaller limit is given, in the order given.
pub open spec fn spec_request_ids(rs: Seq<Restaurant>, maybe_limit: Option<u16>) -> Seq<u8> {
    let cap = match maybe_limit {
        Some(l) => if l < rs.len() {
            l as int
        } else {
            rs.len() as int
        },
        None => rs.len() as int,
    };
    rs.take(cap).map_values(|r: Restaurant| r.id)
}

/// Selects the restaurant ids for the menus request, capping the count at
/// `maybe_limit` when one is given and it is smaller than the restaurant
/// count; the ids keep the order of the given restaurants.
pub fn menu_request_ids(restaurants: &Vec<Restaurant>, maybe_limit: Option<u16>) -> (ids: Vec<u8>)
    ensures
        ids@ == spec_request_ids(restaurants@, maybe_limit),
{
    let cap: usize = match maybe_limit {
        Some(l) => {
            let l = l as usize;
            if l < restaurants.len() {
                l
            } else {
                restaurants.len()
            }
        },
        None => restaurants.len(),
    };
    let mut ids: Vec<u8> = Vec::new();
    let mut i: usize = 0;
    while i < cap
        invariant
            0 <= i <= cap,
            cap <= restaurants@.len(),
            ids@ =~= restaurants@.take(i as int).map_values(|r: Restaurant| r.id),
        decreases cap - i,
    {
        ids.push(restaurants[i].id);
        proof {
            assert(ids@ =~= restaurants@.take(i + 1).map_values(|r: Restaurant| r.id));
        }
        i += 1;
    }
    proof {
        assert(spec_request_ids(restaurants@, maybe_limit) == restaurants@.take(
            cap as int,
        ).map_values(|r: Restaurant| r.id));
    }
    ids
}

/// The comma-joined decimal id list of the menus request.
pub open spec fn spec_id_list(ids: Seq<u8>) -> Seq<char> {
    join_s(ids.map_values(|n: u8| dec_str_u8(n as int)), seq![','])
}

/// Writes the id list as the menus endpoint wants it: decimal numerals
/// joined with commas.
pub fn join_ids(ids: &Vec<u8>) -> (s: String)
    ensures
        s@ == spec_id_list(ids@),
{
    let mut parts: Vec<String> = Vec::new();
    let mut i: usize = 0;
    while i < ids.len()
        invariant
            0 <= i <= ids@.len(),
            parts.deep_view() =~= ids@.take(i as int).map_values(|n: u8| dec_str_u8(n as int)),
        decreases ids@.len() - i,
    {
        let ghost pdv = parts.deep_view();
        let v = u8_to_string(ids[i]);
        let ghost vv = v@;
        parts.push(v);
        proof {
            assert(parts.deep_view() =~= pdv.push(vv)) by {
                assert(forall|k: int|
                    0 <= k < pdv.len() ==> parts@[k].deep_view() == #[trigger] pdv[k]);
                assert(parts@[pdv.len() as int].deep_view() == vv);
            }
            assert(pdv.push(vv) =~= ids@.take(i + 1).map_values(|n: u8| dec_str_u8(n as int)));
        }
        i += 1;
    }
    proof {
        assert(ids@.take(ids@.len() as int) =~= ids@);
    }
    let s = join_strings(&parts, ",");
    proof {
        reveal_strlit(",");
        assert(","@ =~= seq![',']);
    }
    s
}

/// The target date of the menu fetch: the local date `day_offset` days from
/// today, written `"YYYY-MM-DD"`.
///
/// Which date it is depends on the local clock, so the contract promises the
/// shape that holds of every reading — the zero-padded `"-MM-DD"` tail
/// behind at least four year digits; [`get_menus_by_restaurants`] takes the
/// date back as a plain argument and carries an exact contract for every
/// value of it. The offset bound keeps the date arithmetic inside the range
/// the calendar library accepts.
pub fn menu_target_date(day_offset: i32) -> (d: String)
    requires
        -1000000 <= day_offset <= 1000000,
    ensures
        iso_date_shaped(d@),
{
    clock::local_date_plus_days(day_offset as i64)
}

/// The first menu list recorded for `date` among a restaurant's per-date
/// menus, if any.
pub open spec fn day_lookup(days: Seq<DayMenu>, date: Seq<char>) -> Option<Vec<MenuItem>>
    decreases days.len(),
{
    if days.len() == 0 {
        None
    } else if days[0].date@ == date {
        Some(days[0].items)
    } else {
        day_lookup(days.drop_first(), date)
    }
}

/// The flat restaurant-id-to-menu mapping for one date: one entry per
/// response restaurant that recorded the date, in response order;
/// restaurants without the date are absent.
pub open spec fn spec_flatten(resp: Seq<RestaurantMenus>, date: Seq<char>) -> Seq<MenuEntry>
    decreases resp.len(),
{
    if resp.len() == 0 {
        Seq::empty()
    } else {
        match day_lookup(resp[0].days@, date) {
            Some(items) => seq![
                MenuEntry { restaurant_id: resp[0].restaurant_id, items },
            ] + spec_flatten(resp.drop_first(), date),
            None => spec_flatten(resp.drop_first(), date),
        }
    }
}

/// An entry of the flat mapping comes from the response: some response
/// restaurant has this id, and its menus record the target date with
/// exactly these items.
pub open spec fn entry_from_response(
    e: MenuEntry,
    resp: Seq<RestaurantMenus>,
    date: Seq<char>,
) -> bool {
    exists|j: int|
        0 <= j < resp.len() && #[trigger] resp[j].restaurant_id == e.restaurant_id && day_lookup(
            resp[j].days@,
            date,
        ) == Some(e.items)
}

/// Flattens the raw menus response to the single target date: for each
/// restaurant of the response, in order, keep its menu for exactly
/// `target_date`; a restaurant with no entry for that date is simply absent
/// from the result. No id appears in the result unless the response held it
/// with the exact target date.
pub fn get_menus_by_restaurants(response: Vec<RestaurantMenus>, target_date: &String) -> (menus:
    Vec<MenuEntry>)
    ensures
        menus@ == spec_flatten(response@, target_date@),
        forall|i: int|
            0 <= i < menus@.len() ==> entry_from_response(
                #[trigger] menus@[i],
                response@,
                target_date@,
            ),
{
    let ghost orig: Seq<RestaurantMenus> = response@;
    let mut rest = response;
    let mut out: Vec<MenuEntry> = Vec::new();
    proof {
        assert(rest@ =~= orig.skip(0));
    }
    while rest.len() > 0
        invariant
            rest@.len() <= orig.len(),
            rest@ == orig.skip(orig.len() - rest@.len()),
            out@ + spec_flatten(rest@, target_date@) == spec_flatten(orig, target_date@),
            forall|i: int|
                0 <= i < out@.len() ==> entry_from_response(#[trigger] out@[i], orig, target_date@),
        decreases rest.len(),
    {
        let ghost i = orig.len() - rest@.len();
        let ghost pre = out@;
        let rm = rest.remove(0);
        proof {
            assert(rm == orig[i]);
            assert(rest@ =~= orig.skip(i + 1));
            assert(orig.skip(i)[0] == orig[i]);
            assert(orig.skip(i).drop_first() =~= orig.skip(i + 1));
        }
        let ghost rm_days = rm.days@;
        let ghost rm_id = rm.restaurant_id;
        let found = find_day(rm.days, target_date);
        match found {
            Some(items) => {
                let entry = MenuEntry { restaurant_id: rm.restaurant_id, items };
                proof {
                    assert(entry.restaurant_id == orig[i].restaurant_id);
                    assert(day_lookup(orig[i].days@, target_date@) == Some(entry.items));
                    assert(spec_flatten(orig.skip(i), target_date@) == seq![entry] + spec_flatten(
                        orig.skip(i + 1),
                        target_date@,
                    ));
                }
                out.push(entry);
                proof {
                    assert(out@ + spec_flatten(rest@, target_date@) =~= pre + spec_flatten(
                        orig.skip(i),
                        target_date@,
                    ));
                }
            },
            None => {
                proof {
                    assert(spec_flatten(orig.skip(i), target_date@) == spec_flatten(
                        orig.skip(i + 1),
                        target_date@,
                    ));
                }
            },
        }
    }
    proof {
        assert(rest@ =~= Seq::<RestaurantMenus>::empty());
        assert(spec_flatten(rest@, target_date@) =~= Seq::<MenuEntry>::empty());
        assert(out@ =~= out@ + spec_flatten(rest@, target_date@));
    }
    out
}

/// Picks the first per-date menu matching `date`, handing its items out.
#[verifier::loop_isolation(false)]
fn find_day(days: Vec<DayMenu>, date: &String) -> (r: Option<Vec<MenuItem>>)
    ensures
        r == day_lookup(days@, date@),
{
    let ghost orig: Seq<DayMenu> = days@;
    let mut rest = days;
    proof {
        assert(rest@ =~= orig.skip(0));
    }
    while rest.len() > 0
        invariant
            rest@.len() <= orig.len(),
            rest@ == orig.skip(orig.len() - rest@.len()),
            day_lookup(orig, date@) == day_lookup(rest@, date@),
        decreases rest.len(),
    {
        let ghost i = orig.len() - rest@.len();
        let d = rest.remove(0);
        proof {
            assert(d == orig.skip(i)[0]);
            assert(rest@ =~= orig.skip(i + 1));
            assert(orig.skip(i).drop_first() =~= orig.skip(i + 1));
        }
        let DayMenu { date: d_date, items: d_items } = d;
        if d_date.eq(date) {
            proof {
                assert(orig.skip(i)[0].date@ == date@);
                assert(day_lookup(orig.skip(i), date@) == Some(orig.skip(i)[0].items));
                assert(day_lookup(orig, date@) == Some(d_items));
            }
            return Some(d_items);
        }
        proof {
            assert(orig.skip(i)[0].date@ != date@);
            assert(day_lookup(orig.skip(i), date@) == day_lookup(orig.skip(i + 1), date@));
        }
    }
    proof {
        assert(rest@ =~= Seq::<DayMenu>::empty());
    }
    None
}

/// The first menu recorded for restaurant id `id` in the flat mapping.
pub open spec fn menu_lookup(menus: Seq<MenuEntry>, id: Seq<char>) -> Option<Vec<MenuItem>>
    decreases menus.len(),
{
    if menus.len() == 0 {
        None
    } else if menus[0].restaurant_id@ == id {
        Some(menus[0].items)
    } else {
        menu_lookup(menus.drop_first(), id)
    }
}

/// A menu item formatted for display: the title kept, the tags joined with
/// ", ".
pub open spec fn spec_format_item(it: MenuItem) -> FormattedMenuItemV {
    FormattedMenuItemV { title: it.title@, properties: join_s(it.properties.deep_view(), ", "@) }
}

/// The items whose title contains the keyword, each formatted for display.
pub open spec fn spec_kept_items(items: Seq<MenuItem>, filt: Seq<char>) -> Seq<
    FormattedMenuItemV,
> {
    items.filter(|it: MenuItem| is_substring_of(filt, it.title@)).map_values(
        |it: MenuItem| spec_format_item(it),
    )
}

/// The keyword actually applied: an absent filter behaves as the empty
/// keyword, which keeps every item.
pub open spec fn spec_filter_of(f: Option<Seq<char>>) -> Seq<char> {
    match f {
        Some(s) => s,
        None => Seq::empty(),
    }
}

/// With no keyword (or an empty one), every item is kept, in order, each
/// formatted for display.
pub proof fn lemma_empty_filter_keeps_all(items: Seq<MenuItem>)
    ensures
        spec_kept_items(items, Seq::<char>::empty()).len() == items.len(),
        forall|i: int|
            0 <= i < items.len() ==> spec_kept_items(items, Seq::<char>::empty())[i]
                == spec_format_item(#[trigger] items[i]),
    decreases items.len(),
{
    reveal(Seq::filter);
    let e = Seq::<char>::empty();
    if items.len() > 0 {
        lemma_empty_filter_keeps_all(items.drop_last());
        crate::text::lemma_contains_empty(items.last().title@);
        assert(spec_kept_items(items, e) =~= spec_kept_items(items.drop_last(), e).push(
            spec_format_item(items.last()),
        ));
        assert forall|i: int|
            0 <= i < items.len() implies spec_kept_items(items, e)[i] == spec_format_item(
            #[trigger] items[i],
        ) by {
            if i < items.len() - 1 {
                assert(items.drop_last()[i] == items[i]);
                assert(spec_kept_items(items, e)[i] == spec_kept_items(items.drop_last(), e)[i]);
            }
        }
    }
}

/// The display record for one restaurant: its fields carried over, its
/// opening hours read for weekday index 0 whatever the day offset (always
/// today's column; a deliberate, pinned behavior), and its menu looked up by id,
/// keyword-filtered and formatted; a restaurant absent from the mapping gets
/// `None` for its menu.
pub open spec fn spec_display_record(
    r: Restaurant,
    menus: Seq<MenuEntry>,
    filt: Option<Seq<char>>,
) -> RestaurantWithMenuV {
    RestaurantWithMenuV {
        name: r.name@,
        opening_hours: if r.opening_hours@.len() > 0 {
            r.opening_hours.deep_view()[0]
        } else {
            None
        },
        address: r.address@,
        url: r.url@,
        formatted_menu_items: match menu_lookup(menus, dec_str_u8(r.id as int)) {
            Some(items) => Some(spec_kept_items(items@, spec_filter_of(filt))),
            None => None,
        },
    }
}

/// Finds the menu of the restaurant with the given id in the flat mapping.
#[verifier::loop_isolation(false)]
fn find_menu<'a>(menus: &'a Vec<MenuEntry>, id: &String) -> (r: Option<&'a Vec<MenuItem>>)
    ensures
        r matches Some(v) ==> menu_lookup(menus@, id@) == Some(*v),
        r is None ==> menu_lookup(menus@, id@) is None,
{
    let mut j: usize = 0;
    proof {
        assert(menus@.skip(0) =~= menus@);
    }
    while j < menus.len()
        invariant
            0 <= j <= menus@.len(),
            menu_lookup(menus@, id@) == menu_lookup(menus@.skip(j as int), id@),
        decreases menus@.len() - j,
    {
        proof {
            assert(menus@.skip(j as int)[0] == menus@[j as int]);
            assert(menus@.skip(j as int).drop_first() =~= menus@.skip(j as int + 1));
        }
        if menus[j].restaurant_id.eq(id) {
            return Some(&menus[j].items);
        }
        j += 1;
    }
    proof {
        assert(menus@.skip(menus@.len() as int) =~= Seq::<MenuEntry>::empty());
    }
    None
}

/// Keeps the items whose title contains the keyword (every item when the
/// keyword is empty) and formats each for display.
fn format_items(items: &Vec<MenuItem>, filt: &str) -> (r: Vec<FormattedMenuItem>)
    ensures
        r@.map_values(|f: FormattedMenuItem| f@) == spec_kept_items(items@, filt@),
{
    let mut out: Vec<FormattedMenuItem> = Vec::new();
    let mut i: usize = 0;
    proof {
        reveal(Seq::filter);
        assert(items@.take(0) =~= Seq::<MenuItem>::empty());
        assert(out@.map_values(|f: FormattedMenuItem| f@) =~= spec_kept_items(
            items@.take(0),
            filt@,
        ));
    }
    while i < items.len()
        invariant
            0 <= i <= items@.len(),
            out@.map_values(|f: FormattedMenuItem| f@) == spec_kept_items(
                items@.take(i as int),
                filt@,
            ),
        decreases items@.len() - i,
    {
        let ghost pre = out@;
        let it = &items[i];
        let kept = contains_substr(it.title.as_str(), filt);
        if kept {
            let f = FormattedMenuItem {
                title: it.title.clone(),
                properties: join_strings(&it.properties, ", "),
            };
            proof {
                assert(f@ == spec_format_item(items@[i as int]));
            }
            out.push(f);
        }
        proof {
            reveal(Seq::filter);
            assert(items@.take(i + 1).drop_last() =~= items@.take(i as int));
            assert(items@.take(i + 1).last() == items@[i as int]);
            if kept {
                assert(spec_kept_items(items@.take(i + 1), filt@) =~= spec_kept_items(
                    items@.take(i as int),
                    filt@,
                ).push(spec_format_item(items@[i as int])));
            } else {
                assert(spec_kept_items(items@.take(i + 1), filt@) =~= spec_kept_items(
                    items@.take(i as int),
                    filt@,
                ));
            }
            assert(out@.map_values(|f: FormattedMenuItem| f@) =~= spec_kept_items(
                items@.take(i + 1),
                filt@,
            ));
        }
        i += 1;
    }
    proof {
        assert(items@.take(items@.len() as int) =~= items@);
    }
    out
}

/// Joins restaurants with their flattened menus into display records: one
/// record per restaurant, in the given order. A restaurant absent from the
/// mapping gets `None` for its menu ("no menu"); otherwise only the items
/// whose title contains the keyword are kept (all of them when no keyword is
/// given), each with its tags joined by ", ". The opening-hours field is the
/// entry for weekday index 0: always today's column, whatever day the menus
/// were fetched for.
#[verifier::loop_isolation(false)]
pub fn filter_menus_and_format_to_restaurants_with_menus(
    restaurants: &Vec<Restaurant>,
    menus: &Vec<MenuEntry>,
    maybe_filter: &Option<String>,
) -> (r: Vec<RestaurantWithMenu>)
    ensures
        r@.len() == restaurants@.len(),
        forall|i: int|
            0 <= i < restaurants@.len() ==> (#[trigger] r@[i])@ == spec_display_record(
                restaurants@[i],
                menus@,
                maybe_filter.deep_view(),
            ),
{
    let filt: &str = match maybe_filter {
        Some(f) => f.as_str(),
        None => "",
    };
    proof {
        reveal_strlit("");
        assert(""@ =~= Seq::<char>::empty());
        assert(filt@ == spec_filter_of(maybe_filter.deep_view()));
    }
    let mut out: Vec<RestaurantWithMenu> = Vec::new();
    let mut i: usize = 0;
    while i < restaurants.len()
        invariant
            0 <= i <= restaurants@.len(),
            out@.len() == i,
            filt@ == spec_filter_of(maybe_filter.deep_view()),
            forall|k: int|
                0 <= k < i ==> (#[trigger] out@[k])@ == spec_display_record(
                    restaurants@[k],
                    menus@,
                    maybe_filter.deep_view(),
                ),
        decreases restaurants@.len() - i,
    {
        let rst = &restaurants[i];
        let id = u8_to_string(rst.id);
        let menu_items: Option<Vec<FormattedMenuItem>> = match find_menu(menus, &id) {
            Some(items_ref) => Some(format_items(items_ref, filt)),
            None => None,
        };
        let oh: Option<String> = if rst.opening_hours.len() > 0 {
            match &rst.opening_hours[0] {
                Some(s) => Some(s.clone()),
                None => None,
            }
        } else {
            None
        };
        let rec = RestaurantWithMenu {
            name: rst.name.clone(),
            opening_hours: oh,
            address: rst.address.clone(),
            url: rst.url.clone(),
            formatted_menu_items: menu_items,
        };
        proof {
            assert(rec@ == spec_display_record(
                restaurants@[i as int],
                menus@,
                maybe_filter.deep_view(),
            ));
        }
        out.push(rec);
        i += 1;
    }
    out
}

} // verus!
