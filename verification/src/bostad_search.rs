//! Interactive `/bostad` filter builder over the Bostadsförmedlingen feed.
//!
//! Same shape as the `/search` builder (main screen, then one sub-menu per
//! filter), but the whole feed arrives as a single array, so every filter is
//! applied client-side. The category filter is the headline: "Bostad
//! snabbt" ads are first-come-first-served, which is the reason this notifier
//! exists at all.

use vstd::prelude::*;

use crate::bostad::{ad_rent, Ad};
use crate::search::{
    button, buttons_view, chunk_rows, chunks, first_index_from, lemma_chunks_index, lemma_chunks_member, mark, mark_spec, marked, menu, menu_spec,
    push_button, push_row, rent_keyboard_spec, rent_menu, rent_setting, rent_text, rent_text_spec,
    room_buttons, room_buttons_exec, rooms_text, rooms_text_spec, row_view, summary_of,
    summary_text, toggled, Button, Keyboard,
};
use crate::text::{
    chars_of, dec_nat, index_of, is_ascii_digit, lemma_dec_nat_parses, index_of_in, parse_i64, parse_i64_range, parse_unsigned,
    parse_unsigned_range, push_dec_u64, range_is,
};

verus! {

/// Number of selectable kommuner.
pub const KOMMUN_COUNT: usize = 25;

/// A kommun of the Stockholm region, matched verbatim against the feed's
/// `Kommun` field.
#[derive(Clone, Copy, Debug, PartialEq, Eq, Structural)]
pub enum Kommun {
    Stockholm,
    Solna,
    Sundbyberg,
    Nacka,
    Lidingo,
    Danderyd,
    Taby,
    Sollentuna,
    Jarfalla,
    UpplandsBro,
    UpplandsVasby,
    Sigtuna,
    Vallentuna,
    Osteraker,
    Norrtalje,
    Varmdo,
    Tyreso,
    Haninge,
    Huddinge,
    Botkyrka,
    Salem,
    Sodertalje,
    Nykvarn,
    Nynashamn,
    Habo,
}

/// The name of a kommun, as the feed writes it.
pub open spec fn kommun_label(k: Kommun) -> Seq<char> {
    match k {
        Kommun::Stockholm => "Stockholm"@,
        Kommun::Solna => "Solna"@,
        Kommun::Sundbyberg => "Sundbyberg"@,
        Kommun::Nacka => "Nacka"@,
        Kommun::Lidingo => "Lidingö"@,
        Kommun::Danderyd => "Danderyd"@,
        Kommun::Taby => "Täby"@,
        Kommun::Sollentuna => "Sollentuna"@,
        Kommun::Jarfalla => "Järfälla"@,
        Kommun::UpplandsBro => "Upplands-Bro"@,
        Kommun::UpplandsVasby => "Upplands Väsby"@,
        Kommun::Sigtuna => "Sigtuna"@,
        Kommun::Vallentuna => "Vallentuna"@,
        Kommun::Osteraker => "Österåker"@,
        Kommun::Norrtalje => "Norrtälje"@,
        Kommun::Varmdo => "Värmdö"@,
        Kommun::Tyreso => "Tyresö"@,
        Kommun::Haninge => "Haninge"@,
        Kommun::Huddinge => "Huddinge"@,
        Kommun::Botkyrka => "Botkyrka"@,
        Kommun::Salem => "Salem"@,
        Kommun::Sodertalje => "Södertälje"@,
        Kommun::Nykvarn => "Nykvarn"@,
        Kommun::Nynashamn => "Nynäshamn"@,
        Kommun::Habo => "Håbo"@,
    }
}

/// The position of a kommun in display order.
pub open spec fn kommun_index(k: Kommun) -> int {
    match k {
        Kommun::Stockholm => 0,
        Kommun::Solna => 1,
        Kommun::Sundbyberg => 2,
        Kommun::Nacka => 3,
        Kommun::Lidingo => 4,
        Kommun::Danderyd => 5,
        Kommun::Taby => 6,
        Kommun::Sollentuna => 7,
        Kommun::Jarfalla => 8,
        Kommun::UpplandsBro => 9,
        Kommun::UpplandsVasby => 10,
        Kommun::Sigtuna => 11,
        Kommun::Vallentuna => 12,
        Kommun::Osteraker => 13,
        Kommun::Norrtalje => 14,
        Kommun::Varmdo => 15,
        Kommun::Tyreso => 16,
        Kommun::Haninge => 17,
        Kommun::Huddinge => 18,
        Kommun::Botkyrka => 19,
        Kommun::Salem => 20,
        Kommun::Sodertalje => 21,
        Kommun::Nykvarn => 22,
        Kommun::Nynashamn => 23,
        Kommun::Habo => 24,
    }
}

/// All kommuner, in display order.
pub open spec fn kommuner_in_order() -> Seq<Kommun> {
    seq![
        Kommun::Stockholm,
        Kommun::Solna,
        Kommun::Sundbyberg,
        Kommun::Nacka,
        Kommun::Lidingo,
        Kommun::Danderyd,
        Kommun::Taby,
        Kommun::Sollentuna,
        Kommun::Jarfalla,
        Kommun::UpplandsBro,
        Kommun::UpplandsVasby,
        Kommun::Sigtuna,
        Kommun::Vallentuna,
        Kommun::Osteraker,
        Kommun::Norrtalje,
        Kommun::Varmdo,
        Kommun::Tyreso,
        Kommun::Haninge,
        Kommun::Huddinge,
        Kommun::Botkyrka,
        Kommun::Salem,
        Kommun::Sodertalje,
        Kommun::Nykvarn,
        Kommun::Nynashamn,
        Kommun::Habo,
    ]
}

/// The kommun at a position in display order.
pub open spec fn kommun_at(i: int) -> Option<Kommun> {
    if 0 <= i < KOMMUN_COUNT {
        Some(kommuner_in_order()[i])
    } else {
        None
    }
}

/// No two municipalities share a label.
pub proof fn lemma_kommun_labels_unique(a: Kommun, b: Kommun)
    ensures
        a != b ==> kommun_label(a) != kommun_label(b),
{
    reveal_strlit("Stockholm");
    reveal_strlit("Solna");
    reveal_strlit("Sundbyberg");
    reveal_strlit("Nacka");
    reveal_strlit("Lidingö");
    reveal_strlit("Danderyd");
    reveal_strlit("Täby");
    reveal_strlit("Sollentuna");
    reveal_strlit("Järfälla");
    reveal_strlit("Upplands-Bro");
    reveal_strlit("Upplands Väsby");
    reveal_strlit("Sigtuna");
    reveal_strlit("Vallentuna");
    reveal_strlit("Österåker");
    reveal_strlit("Norrtälje");
    reveal_strlit("Värmdö");
    reveal_strlit("Tyresö");
    reveal_strlit("Haninge");
    reveal_strlit("Huddinge");
    reveal_strlit("Botkyrka");
    reveal_strlit("Salem");
    reveal_strlit("Södertälje");
    reveal_strlit("Nykvarn");
    reveal_strlit("Nynäshamn");
    reveal_strlit("Håbo");
    if kommun_label(a) == kommun_label(b) {
        assert(kommun_label(a).len() == kommun_label(b).len());
        assert(kommun_label(a)[0] == kommun_label(b)[0]);
        assert(kommun_label(a)[1] == kommun_label(b)[1]);
    }
}

impl Kommun {
    /// The kommun's name, as the feed writes it.
    pub fn label(self) -> (r: &'static str)
        ensures
            r@ == kommun_label(self),
    {
        match self {
            Kommun::Stockholm => "Stockholm",
            Kommun::Solna => "Solna",
            Kommun::Sundbyberg => "Sundbyberg",
            Kommun::Nacka => "Nacka",
            Kommun::Lidingo => "Lidingö",
            Kommun::Danderyd => "Danderyd",
            Kommun::Taby => "Täby",
            Kommun::Sollentuna => "Sollentuna",
            Kommun::Jarfalla => "Järfälla",
            Kommun::UpplandsBro => "Upplands-Bro",
            Kommun::UpplandsVasby => "Upplands Väsby",
            Kommun::Sigtuna => "Sigtuna",
            Kommun::Vallentuna => "Vallentuna",
            Kommun::Osteraker => "Österåker",
            Kommun::Norrtalje => "Norrtälje",
            Kommun::Varmdo => "Värmdö",
            Kommun::Tyreso => "Tyresö",
            Kommun::Haninge => "Haninge",
            Kommun::Huddinge => "Huddinge",
            Kommun::Botkyrka => "Botkyrka",
            Kommun::Salem => "Salem",
            Kommun::Sodertalje => "Södertälje",
            Kommun::Nykvarn => "Nykvarn",
            Kommun::Nynashamn => "Nynäshamn",
            Kommun::Habo => "Håbo",
        }
    }

    /// The kommun at position `i` in display order.
    pub fn from_index(i: usize) -> (r: Option<Kommun>)
        ensures
            r == kommun_at(i as int),
    {
        match i {
            0 => Some(Kommun::Stockholm),
            1 => Some(Kommun::Solna),
            2 => Some(Kommun::Sundbyberg),
            3 => Some(Kommun::Nacka),
            4 => Some(Kommun::Lidingo),
            5 => Some(Kommun::Danderyd),
            6 => Some(Kommun::Taby),
            7 => Some(Kommun::Sollentuna),
            8 => Some(Kommun::Jarfalla),
            9 => Some(Kommun::UpplandsBro),
            10 => Some(Kommun::UpplandsVasby),
            11 => Some(Kommun::Sigtuna),
            12 => Some(Kommun::Vallentuna),
            13 => Some(Kommun::Osteraker),
            14 => Some(Kommun::Norrtalje),
            15 => Some(Kommun::Varmdo),
            16 => Some(Kommun::Tyreso),
            17 => Some(Kommun::Haninge),
            18 => Some(Kommun::Huddinge),
            19 => Some(Kommun::Botkyrka),
            20 => Some(Kommun::Salem),
            21 => Some(Kommun::Sodertalje),
            22 => Some(Kommun::Nykvarn),
            23 => Some(Kommun::Nynashamn),
            24 => Some(Kommun::Habo),
            _ => None,
        }
    }

    /// All kommuner, in display order.
    pub fn all() -> (r: Vec<Kommun>)
        ensures
            r@ == kommuner_in_order(),
    {
        let mut r: Vec<Kommun> = Vec::new();
        let mut i: usize = 0;
        while i < KOMMUN_COUNT
            invariant
                i <= KOMMUN_COUNT,
                r@ == kommuner_in_order().take(i as int),
            decreases KOMMUN_COUNT - i,
        {
            match Kommun::from_index(i) {
                Some(k) => r.push(k),
                None => {
                    assert(false);
                },
            }
            proof {
                assert(kommuner_in_order().take(i + 1) =~= kommuner_in_order().take(i as int).push(kommuner_in_order()[i as int]));
            }
            i = i + 1;
        }
        assert(kommuner_in_order().take(KOMMUN_COUNT as int) =~= kommuner_in_order());
        r
    }
}

/// Display order and positions agree.
pub proof fn lemma_kommun_index(k: Kommun)
    ensures
        0 <= kommun_index(k) < KOMMUN_COUNT,
        kommun_at(kommun_index(k)) == Some(k),
{
}


// ---------------------------------------------------------------------------
// Categories
// ---------------------------------------------------------------------------

/// Ad category, matched against the feed's per-ad booleans.
#[derive(Clone, Copy, Debug, PartialEq, Eq, Structural)]
pub enum Category {
    /// First-come-first-served fast track.
    Snabbt,
    /// Student apartments.
    Student,
    /// Ordinary queue-time ads.
    Regular,
    All,
}

/// The label of a category.
pub open spec fn category_label(c: Category) -> Seq<char> {
    match c {
        Category::Snabbt => "⚡ Bostad snabbt"@,
        Category::Student => "🎓 Student"@,
        Category::Regular => "🏢 Regular queue"@,
        Category::All => "All ads"@,
    }
}

/// The category at a position in display order.
pub open spec fn category_at(i: int) -> Option<Category> {
    if i == 0 {
        Some(Category::Snabbt)
    } else if i == 1 {
        Some(Category::Student)
    } else if i == 2 {
        Some(Category::Regular)
    } else if i == 3 {
        Some(Category::All)
    } else {
        None
    }
}

/// Does an ad belong to a category?
pub open spec fn category_matches(c: Category, ad: &Ad) -> bool {
    match c {
        Category::Snabbt => ad.bostad_snabbt,
        Category::Student => ad.student,
        Category::Regular => ad.vanlig,
        Category::All => true,
    }
}

impl Category {
    /// The category at position `i` in display order.
    pub fn from_index(i: usize) -> (r: Option<Category>)
        ensures
            r == category_at(i as int),
    {
        if i == 0 {
            Some(Category::Snabbt)
        } else if i == 1 {
            Some(Category::Student)
        } else if i == 2 {
            Some(Category::Regular)
        } else if i == 3 {
            Some(Category::All)
        } else {
            None
        }
    }

    /// The label shown for the category.
    pub fn label(self) -> (r: &'static str)
        ensures
            r@ == category_label(self),
    {
        match self {
            Category::Snabbt => "⚡ Bostad snabbt",
            Category::Student => "🎓 Student",
            Category::Regular => "🏢 Regular queue",
            Category::All => "All ads",
        }
    }

    /// Does an ad belong to this category?
    pub fn matches(self, ad: &Ad) -> (r: bool)
        ensures
            r == category_matches(self, ad),
    {
        match self {
            Category::Snabbt => ad.bostad_snabbt,
            Category::Student => ad.student,
            Category::Regular => ad.vanlig,
            Category::All => true,
        }
    }
}

// ---------------------------------------------------------------------------
// Filters
// ---------------------------------------------------------------------------

/// Current selection for an in-progress /bostad search.
#[derive(Clone, Debug)]
pub struct Filters {
    pub category: Category,
    /// Selected kommuner; empty = the whole region.
    pub kommuner: Vec<Kommun>,
    /// Minimum room count; 0 = any.
    pub min_rooms: u8,
    /// Min/max monthly rent in SEK; None = any.
    pub min_rent: Option<i64>,
    pub max_rent: Option<i64>,
}

/// What a `Filters` holds.
pub struct FiltersModel {
    pub category: Category,
    pub kommuner: Seq<Kommun>,
    pub min_rooms: u8,
    pub min_rent: Option<i64>,
    pub max_rent: Option<i64>,
}

impl View for Filters {
    type V = FiltersModel;

    open spec fn view(&self) -> FiltersModel {
        FiltersModel {
            category: self.category,
            kommuner: self.kommuner@,
            min_rooms: self.min_rooms,
            min_rent: self.min_rent,
            max_rent: self.max_rent,
        }
    }
}

/// The filters a new search starts with: fast-track ads anywhere in the
/// region, of any size and rent.
pub open spec fn default_filters() -> FiltersModel {
    FiltersModel {
        category: Category::Snabbt,
        kommuner: Seq::empty(),
        min_rooms: 0,
        min_rent: None,
        max_rent: None,
    }
}

impl Default for Filters {
    fn default() -> (r: Self)
        ensures
            r@ == default_filters(),
    {
        Filters {
            category: Category::Snabbt,
            kommuner: Vec::new(),
            min_rooms: 0,
            min_rent: None,
            max_rent: None,
        }
    }
}

/// The selected kommuner, in display order.
pub open spec fn selected_upto(ks: Seq<Kommun>, n: int) -> Seq<Kommun>
    decreases n,
{
    if n <= 0 {
        Seq::empty()
    } else {
        let k = kommuner_in_order()[n - 1];
        if ks.contains(k) {
            selected_upto(ks, n - 1).push(k)
        } else {
            selected_upto(ks, n - 1)
        }
    }
}

/// The kommun summary shown on buttons and messages.
pub open spec fn kommun_summary_spec(ks: Seq<Kommun>) -> Seq<char> {
    summary_of(selected_upto(ks, KOMMUN_COUNT as int).map_values(|k: Kommun| kommun_label(k)), "Whole region"@)
}

/// Does the selection hold `k`?
pub fn contains_kommun(v: &Vec<Kommun>, k: Kommun) -> (b: bool)
    ensures
        b == v@.contains(k),
{
    let mut i: usize = 0;
    while i < v.len()
        invariant
            i <= v.len(),
            forall|m: int| 0 <= m < i ==> v@[m] != k,
        decreases v.len() - i,
    {
        if v[i] == k {
            return true;
        }
        i = i + 1;
    }
    false
}

impl Filters {
    /// Short human-readable kommun summary for labels/messages.
    pub fn kommun_summary(&self) -> (r: String)
        ensures
            r@ == kommun_summary_spec(self.kommuner@),
    {
        let mut names: Vec<&'static str> = Vec::new();
        let ghost mut sel: Seq<Kommun> = Seq::empty();
        let mut i: usize = 0;
        while i < KOMMUN_COUNT
            invariant
                i <= KOMMUN_COUNT,
                sel == selected_upto(self.kommuner@, i as int),
                names@.map_values(|n: &'static str| n@) == sel.map_values(|k: Kommun| kommun_label(k)),
            decreases KOMMUN_COUNT - i,
        {
            let k = match Kommun::from_index(i) {
                Some(k) => k,
                None => {
                    assert(false);
                    Kommun::Stockholm
                },
            };
            if contains_kommun(&self.kommuner, k) {
                let ghost before = names@;
                names.push(k.label());
                proof {
                    assert(names@.map_values(|n: &'static str| n@) =~= before.map_values(|n: &'static str| n@).push(kommun_label(k)));
                    sel = sel.push(k);
                    assert(sel.map_values(|k: Kommun| kommun_label(k)) =~= selected_upto(self.kommuner@, i as int).map_values(|k: Kommun| kommun_label(k)).push(kommun_label(k)));
                }
            }
            i = i + 1;
        }
        summary_text(&names, "Whole region")
    }

    /// Selects `kommun` if it is not selected, else deselects it.
    pub fn toggle_kommun(&mut self, kommun: Kommun)
        ensures
            final(self)@ == (FiltersModel { kommuner: toggled(old(self)@.kommuner, kommun), ..old(self)@ }),
    {
        let mut i: usize = 0;
        while i < self.kommuner.len()
            invariant
                i <= self.kommuner.len(),
                self@ == old(self)@,
                first_index_from(self.kommuner@, kommun, 0) == first_index_from(self.kommuner@, kommun, i as int),
            decreases self.kommuner.len() - i,
        {
            if self.kommuner[i] == kommun {
                self.kommuner.remove(i);
                return;
            }
            i = i + 1;
        }
        self.kommuner.push(kommun);
    }
}


// ---------------------------------------------------------------------------
// Screens and button presses
// ---------------------------------------------------------------------------

/// Which screen to display.
#[derive(Clone, Copy, Debug, PartialEq, Eq, Structural)]
pub enum Screen {
    Main,
    Category,
    Rooms,
    MinRent,
    MaxRent,
    Kommun,
}

/// What the caller should do after a button press.
#[derive(Clone, Copy, Debug, PartialEq, Eq, Structural)]
pub enum Action {
    /// Redraw the given screen.
    Show(Screen),
    /// Run the search with the current filters.
    Search,
    /// Unrecognized/no-op.
    Ignore,
}

/// What a `key:value` button press does to the filters, and what comes next.
pub open spec fn apply_key_value(f: FiltersModel, key: Seq<char>, val: Seq<char>) -> (FiltersModel, Action) {
    if key == "cat"@ {
        let g = match parse_unsigned(val, usize::MAX as nat) {
            Some(i) => match category_at(i as int) {
                Some(c) => FiltersModel { category: c, ..f },
                None => f,
            },
            None => f,
        };
        (g, Action::Show(Screen::Main))
    } else if key == "rooms"@ {
        let g = match parse_unsigned(val, u8::MAX as nat) {
            Some(r) => if r <= 5 {
                FiltersModel { min_rooms: r as u8, ..f }
            } else {
                f
            },
            None => f,
        };
        (g, Action::Show(Screen::Main))
    } else if key == "minrent"@ {
        let g = match parse_i64(val) {
            Some(v) => FiltersModel { min_rent: rent_setting(v), ..f },
            None => f,
        };
        (g, Action::Show(Screen::Main))
    } else if key == "maxrent"@ {
        let g = match parse_i64(val) {
            Some(v) => FiltersModel { max_rent: rent_setting(v), ..f },
            None => f,
        };
        (g, Action::Show(Screen::Main))
    } else if key == "kommun"@ {
        let g = match parse_unsigned(val, usize::MAX as nat) {
            Some(i) => match kommun_at(i as int) {
                Some(k) => FiltersModel { kommuner: toggled(f.kommuner, k), ..f },
                None => f,
            },
            None => f,
        };
        (g, Action::Show(Screen::Kommun))
    } else {
        (f, Action::Ignore)
    }
}

/// What a button press (its callback data) does to the filters, and what
/// comes next.
pub open spec fn apply_spec(f: FiltersModel, data: Seq<char>) -> (FiltersModel, Action) {
    if data == "go"@ {
        (f, Action::Search)
    } else if data == "back"@ {
        (f, Action::Show(Screen::Main))
    } else if data == "menu:cat"@ {
        (f, Action::Show(Screen::Category))
    } else if data == "menu:rooms"@ {
        (f, Action::Show(Screen::Rooms))
    } else if data == "menu:minrent"@ {
        (f, Action::Show(Screen::MinRent))
    } else if data == "menu:maxrent"@ {
        (f, Action::Show(Screen::MaxRent))
    } else if data == "menu:kommun"@ {
        (f, Action::Show(Screen::Kommun))
    } else if data == "kommunclear"@ {
        (FiltersModel { kommuner: Seq::empty(), ..f }, Action::Show(Screen::Kommun))
    } else {
        match index_of(data, ':') {
            Some(i) => apply_key_value(f, data.take(i), data.skip(i + 1)),
            None => (f, Action::Ignore),
        }
    }
}

fn apply_key_value_exec(filters: &mut Filters, d: &Vec<char>, colon: usize) -> (r: Action)
    requires
        colon < d.len(),
    ensures
        (final(filters)@, r) == apply_key_value(
            old(filters)@,
            d@.subrange(0, colon as int),
            d@.subrange(colon + 1, d.len() as int),
        ),
{
    let n = d.len();
    let v = colon + 1;
    if range_is(d, 0, colon, "cat") {
        if let Some(i) = parse_unsigned_range(d, v, n, usize::MAX as u64) {
            if let Some(c) = Category::from_index(i as usize) {
                filters.category = c;
            }
        }
        Action::Show(Screen::Main)
    } else if range_is(d, 0, colon, "rooms") {
        if let Some(r) = parse_unsigned_range(d, v, n, 255) {
            if r <= 5 {
                filters.min_rooms = r as u8;
            }
        }
        Action::Show(Screen::Main)
    } else if range_is(d, 0, colon, "minrent") {
        if let Some(x) = parse_i64_range(d, v, n) {
            filters.min_rent = if x > 0 { Some(x) } else { None };
        }
        Action::Show(Screen::Main)
    } else if range_is(d, 0, colon, "maxrent") {
        if let Some(x) = parse_i64_range(d, v, n) {
            filters.max_rent = if x > 0 { Some(x) } else { None };
        }
        Action::Show(Screen::Main)
    } else if range_is(d, 0, colon, "kommun") {
        if let Some(i) = parse_unsigned_range(d, v, n, usize::MAX as u64) {
            if let Some(k) = Kommun::from_index(i as usize) {
                filters.toggle_kommun(k);
            }
        }
        Action::Show(Screen::Kommun)
    } else {
        Action::Ignore
    }
}

/// Applies a button press (its callback data) to the filters, returning the
/// next step.
pub fn apply(filters: &mut Filters, data: &str) -> (r: Action)
    ensures
        (final(filters)@, r) == apply_spec(old(filters)@, data@),
{
    let d = chars_of(data);
    let n = d.len();
    proof {
        assert(d@.subrange(0, n as int) == data@);
    }
    if range_is(&d, 0, n, "go") {
        return Action::Search;
    } else if range_is(&d, 0, n, "back") {
        return Action::Show(Screen::Main);
    } else if range_is(&d, 0, n, "menu:cat") {
        return Action::Show(Screen::Category);
    } else if range_is(&d, 0, n, "menu:rooms") {
        return Action::Show(Screen::Rooms);
    } else if range_is(&d, 0, n, "menu:minrent") {
        return Action::Show(Screen::MinRent);
    } else if range_is(&d, 0, n, "menu:maxrent") {
        return Action::Show(Screen::MaxRent);
    } else if range_is(&d, 0, n, "menu:kommun") {
        return Action::Show(Screen::Kommun);
    } else if range_is(&d, 0, n, "kommunclear") {
        filters.kommuner.clear();
        return Action::Show(Screen::Kommun);
    }
    match index_of_in(&d, ':', 0, n) {
        None => Action::Ignore,
        Some(colon) => {
            proof {
                assert(data@.take(colon as int) == d@.subrange(0, colon as int));
                assert(data@.skip(colon + 1) == d@.subrange(colon + 1, n as int));
            }
            apply_key_value_exec(filters, &d, colon)
        },
    }
}

/// Starting a search and unrecognised presses leave the filters as they were.
pub proof fn lemma_apply_search_or_ignore_keeps_filters(f: FiltersModel, data: Seq<char>)
    ensures
        (apply_spec(f, data).1 is Search || apply_spec(f, data).1 is Ignore) ==> apply_spec(f, data).0
            == f,
{
}

/// Every press keeps the kommun selection free of duplicates.
pub proof fn lemma_apply_keeps_kommuner_distinct(f: FiltersModel, data: Seq<char>)
    requires
        f.kommuner.no_duplicates(),
    ensures
        apply_spec(f, data).0.kommuner.no_duplicates(),
{
    match index_of(data, ':') {
        Some(i) => {
            let val = data.skip(i + 1);
            match parse_unsigned(val, usize::MAX as nat) {
                Some(k) => match kommun_at(k as int) {
                    Some(a) => crate::search::lemma_toggle(f.kommuner, a),
                    None => {},
                },
                None => {},
            }
        },
        None => {},
    }
    assert(Seq::<Kommun>::empty().no_duplicates());
}

/// The callback data of the button for the kommun at position `i`.
pub open spec fn kommun_button_data(i: nat) -> Seq<char> {
    "kommun:"@ + dec_nat(i)
}

/// Pressing a kommun button selects that kommun if it was not selected and
/// deselects it if it was, leaves every other filter as it was, and keeps
/// the kommun screen open; pressing it again restores the selection.
pub proof fn lemma_kommun_button_twice(f: FiltersModel, i: nat)
    requires
        f.kommuner.no_duplicates(),
        i < KOMMUN_COUNT,
    ensures
        ({
            let d = kommun_button_data(i);
            let k = kommuner_in_order()[i as int];
            let (g, act) = apply_spec(f, d);
            let (h, act2) = apply_spec(g, d);
            &&& act == Action::Show(Screen::Kommun)
            &&& act2 == Action::Show(Screen::Kommun)
            &&& g == FiltersModel { kommuner: toggled(f.kommuner, k), ..f }
            &&& g.kommuner.contains(k) == !f.kommuner.contains(k)
            &&& forall|b: Kommun| b != k ==> g.kommuner.contains(b) == f.kommuner.contains(b)
            &&& h.kommuner.to_set() == f.kommuner.to_set()
            &&& h == FiltersModel { kommuner: h.kommuner, ..f }
        }),
{
    let d = kommun_button_data(i);
    let k = kommuner_in_order()[i as int];
    reveal_strlit("kommun:");
    lemma_dec_nat_parses(i);
    let digits = dec_nat(i);
    assert(digits.len() <= 2) by {
        if i >= 10 {
            assert(dec_nat(i / 10).len() == 1);
        }
    }
    assert(d.len() == 7 + digits.len());
    assert(d[6] == ':');
    assert forall|m: int| 0 <= m < 6 implies d[m] != ':' by {
        assert(d[m] == "kommun:"@[m]);
    }
    crate::text::lemma_index_of_first(d, ':', 6);
    assert(d.take(6) =~= "kommun"@) by {
        reveal_strlit("kommun");
    }
    assert(d.skip(7) =~= digits);
    assert(is_ascii_digit(digits[0]));
    assert(parse_unsigned(digits, usize::MAX as nat) == Some(i));
    assert(kommun_at(i as int) == Some(k));
    lemma_apply_kommun(f, d, k);
    let g = FiltersModel { kommuner: toggled(f.kommuner, k), ..f };
    lemma_apply_kommun(g, d, k);
    crate::search::lemma_toggle_twice(f.kommuner, k);
}

/// A `kommun:` press whose index names `k` toggles `k`.
proof fn lemma_apply_kommun(f: FiltersModel, d: Seq<char>, k: Kommun)
    requires
        d.len() >= 8 && d.len() <= 9,
        index_of(d, ':') == Some(6int),
        d.take(6) == "kommun"@,
        (match parse_unsigned(d.skip(7), usize::MAX as nat) {
            Some(j) => kommun_at(j as int) == Some(k),
            None => false,
        }),
    ensures
        apply_spec(f, d) == (FiltersModel { kommuner: toggled(f.kommuner, k), ..f }, Action::Show(Screen::Kommun)),
{
    reveal_strlit("go");
    reveal_strlit("back");
    reveal_strlit("menu:cat");
    reveal_strlit("menu:rooms");
    reveal_strlit("menu:minrent");
    reveal_strlit("menu:maxrent");
    reveal_strlit("menu:kommun");
    reveal_strlit("kommunclear");
    reveal_strlit("kommun");
    reveal_strlit("cat");
    reveal_strlit("rooms");
    reveal_strlit("minrent");
    reveal_strlit("maxrent");
    assert(d != "go"@ && d != "back"@ && d != "menu:cat"@ && d != "menu:rooms"@);
    assert(d != "menu:minrent"@ && d != "menu:maxrent"@ && d != "menu:kommun"@ && d != "kommunclear"@);
    let key = d.take(6);
    assert(key.len() == 6);
    assert(key != "cat"@ && key != "rooms"@ && key != "minrent"@ && key != "maxrent"@);
}

// ---------------------------------------------------------------------------
// Client-side filtering
// ---------------------------------------------------------------------------

/// Does the ad lie in one of the selected kommuner (matched by name)?
pub open spec fn in_selected_kommun(ks: Seq<Kommun>, ad: &Ad) -> bool {
    match ad.kommun {
        Some(k) => exists|i: int| 0 <= i < ks.len() && kommun_label(#[trigger] ks[i]) == k@,
        None => false,
    }
}

/// Does an ad pass all filters? A filter that is set excludes ads whose value
/// is unknown.
pub open spec fn passes_spec(f: FiltersModel, ad: &Ad) -> bool {
    &&& category_matches(f.category, ad)
    &&& (f.kommuner.len() > 0 ==> in_selected_kommun(f.kommuner, ad))
    &&& (f.min_rooms > 0 ==> match ad.antal_rum_tenths {
        Some(r) => r >= f.min_rooms * 10,
        None => false,
    })
    &&& (match f.min_rent {
        Some(min) => match ad_rent(ad) {
            Some(r) => r >= min,
            None => false,
        },
        None => true,
    })
    &&& (match f.max_rent {
        Some(max) => match ad_rent(ad) {
            Some(r) => r <= max,
            None => false,
        },
        None => true,
    })
}

/// Is the ad in one of the selected kommuner?
fn in_selected_exec(ks: &Vec<Kommun>, ad: &Ad) -> (r: bool)
    ensures
        r == in_selected_kommun(ks@, ad),
{
    match &ad.kommun {
        None => false,
        Some(k) => {
            let kc = chars_of(k.as_str());
            let mut i: usize = 0;
            while i < ks.len()
                invariant
                    i <= ks.len(),
                    kc@ == k@,
                    ad.kommun == Some(*k),
                    forall|m: int| 0 <= m < i ==> kommun_label(#[trigger] ks@[m]) != k@,
                decreases ks.len() - i,
            {
                proof {
                    assert(kc@.subrange(0, kc@.len() as int) == kc@);
                }
                if range_is(&kc, 0, kc.len(), ks[i].label()) {
                    proof {
                        assert(kommun_label(ks@[i as int]) == k@);
                    }
                    return true;
                }
                i = i + 1;
            }
            false
        },
    }
}

/// Does an ad pass all filters? Everything is client-side here.
pub fn passes(filters: &Filters, ad: &Ad) -> (r: bool)
    ensures
        r == passes_spec(filters@, ad),
{
    if !filters.category.matches(ad) {
        return false;
    }
    if filters.kommuner.len() > 0 {
        if !in_selected_exec(&filters.kommuner, ad) {
            return false;
        }
    }
    if filters.min_rooms > 0 {
        match ad.antal_rum_tenths {
            Some(r) => {
                if r < (filters.min_rooms as i64) * 10 {
                    return false;
                }
            },
            None => return false,
        }
    }
    let rent = ad.rent();
    if let Some(min) = filters.min_rent {
        match rent {
            Some(x) => {
                if x < min {
                    return false;
                }
            },
            None => return false,
        }
    }
    if let Some(max) = filters.max_rent {
        match rent {
            Some(x) => {
                if x > max {
                    return false;
                }
            },
            None => return false,
        }
    }
    true
}


// ---------------------------------------------------------------------------
// Texts and keyboards
// ---------------------------------------------------------------------------

/// The multi-line summary of the active filters.
pub open spec fn describe_spec(f: FiltersModel) -> Seq<char> {
    "🗂 Category: "@ + category_label(f.category) + "\n📍 Kommun: "@ + kommun_summary_spec(f.kommuner)
        + "\n🛏 Rooms: "@ + rooms_text_spec(f.min_rooms) + "\n💰 Rent: "@ + rent_text_spec(f.min_rent)
        + "–"@ + rent_text_spec(f.max_rent)
}

/// A multi-line summary of the active filters, for the "Searching…" message.
pub fn describe(f: &Filters) -> (r: String)
    ensures
        r@ == describe_spec(f@),
{
    let mut r = String::new();
    r.append("🗂 Category: ");
    r.append(f.category.label());
    r.append("\n📍 Kommun: ");
    r.append(f.kommun_summary().as_str());
    r.append("\n🛏 Rooms: ");
    r.append(rooms_text(f.min_rooms).as_str());
    r.append("\n💰 Rent: ");
    r.append(rent_text(f.min_rent).as_str());
    r.append("–");
    r.append(rent_text(f.max_rent).as_str());
    r
}

/// The text of the main screen.
pub open spec fn main_text_spec(f: FiltersModel) -> Seq<char> {
    "🔍 Search Bostadsförmedlingen ads\n\n🗂 Category: "@ + category_label(f.category) + "\n🛏 Rooms: "@
        + rooms_text_spec(f.min_rooms) + "\n💰 Rent: "@ + rent_text_spec(f.min_rent) + "–"@
        + rent_text_spec(f.max_rent) + "\n📍 Kommun: "@ + kommun_summary_spec(f.kommuner)
        + "\n\nTap a field to change it, then Search."@
}

/// The text of the main screen.
pub fn main_text(f: &Filters) -> (r: String)
    ensures
        r@ == main_text_spec(f@),
{
    let mut r = String::new();
    r.append("🔍 Search Bostadsförmedlingen ads\n\n🗂 Category: ");
    r.append(f.category.label());
    r.append("\n🛏 Rooms: ");
    r.append(rooms_text(f.min_rooms).as_str());
    r.append("\n💰 Rent: ");
    r.append(rent_text(f.min_rent).as_str());
    r.append("–");
    r.append(rent_text(f.max_rent).as_str());
    r.append("\n📍 Kommun: ");
    r.append(f.kommun_summary().as_str());
    r.append("\n\nTap a field to change it, then Search.");
    r
}

/// A row of one button.
fn single_row(text: String, data: &str) -> (r: Vec<Button>)
    ensures
        row_view(r) == seq![(text@, data@)],
{
    let mut r: Vec<Button> = Vec::new();
    push_button(&mut r, button(text, data));
    assert(row_view(r) =~= buttons_view(r@));
    r
}

/// The main screen's keyboard: one button per filter, then Search.
pub open spec fn main_keyboard_spec(f: FiltersModel) -> Seq<Seq<(Seq<char>, Seq<char>)>> {
    seq![
        seq![("🗂 Category: "@ + category_label(f.category), "menu:cat"@)],
        seq![("🛏 Rooms: "@ + rooms_text_spec(f.min_rooms), "menu:rooms"@)],
        seq![("💰 Min rent: "@ + rent_text_spec(f.min_rent), "menu:minrent"@)],
        seq![("💰 Max rent: "@ + rent_text_spec(f.max_rent), "menu:maxrent"@)],
        seq![("📍 Kommun: "@ + kommun_summary_spec(f.kommuner), "menu:kommun"@)],
        seq![("🔎 Search"@, "go"@)],
    ]
}

/// The main screen: one button per filter, then Search.
pub fn main_keyboard(f: &Filters) -> (k: Keyboard)
    ensures
        k@ == main_keyboard_spec(f@),
{
    let mut rows: Vec<Vec<Button>> = Vec::new();
    let mut t = String::from_str("🗂 Category: ");
    t.append(f.category.label());
    push_row(&mut rows, single_row(t, "menu:cat"));
    let mut t = String::from_str("🛏 Rooms: ");
    t.append(rooms_text(f.min_rooms).as_str());
    push_row(&mut rows, single_row(t, "menu:rooms"));
    let mut t = String::from_str("💰 Min rent: ");
    t.append(rent_text(f.min_rent).as_str());
    push_row(&mut rows, single_row(t, "menu:minrent"));
    let mut t = String::from_str("💰 Max rent: ");
    t.append(rent_text(f.max_rent).as_str());
    push_row(&mut rows, single_row(t, "menu:maxrent"));
    let mut t = String::from_str("📍 Kommun: ");
    t.append(f.kommun_summary().as_str());
    push_row(&mut rows, single_row(t, "menu:kommun"));
    push_row(&mut rows, single_row(String::from_str("🔎 Search"), "go"));
    let k = Keyboard { rows };
    assert(k@ =~= main_keyboard_spec(f@));
    k
}

/// The button for the category at position `i`.
pub open spec fn category_button(current: Category, i: int) -> (Seq<char>, Seq<char>) {
    let c = category_at(i)->0;
    (mark_spec(current == c, category_label(c)), "cat:"@ + dec_nat(i as nat))
}

/// The category menu: one button per category, the selected one marked.
pub open spec fn category_keyboard_spec(f: FiltersModel) -> Seq<Seq<(Seq<char>, Seq<char>)>> {
    menu_spec(Seq::new(4, |i: int| category_button(f.category, i)), 2)
}

/// The category menu.
pub fn category_keyboard(f: &Filters) -> (k: Keyboard)
    ensures
        k@ == category_keyboard_spec(f@),
{
    let ghost all = Seq::new(4, |i: int| category_button(f@.category, i));
    let mut buttons: Vec<Button> = Vec::new();
    let mut i: usize = 0;
    while i < 4
        invariant
            i <= 4,
            all == Seq::new(4, |i: int| category_button(f@.category, i)),
            buttons_view(buttons@) == all.take(i as int),
        decreases 4 - i,
    {
        let c = match Category::from_index(i) {
            Some(c) => c,
            None => {
                assert(false);
                Category::All
            },
        };
        let mut data = String::from_str("cat:");
        push_dec_u64(&mut data, i as u64);
        push_button(&mut buttons, button(mark(f.category == c, c.label()), data.as_str()));
        proof {
            assert(all.take(i + 1) =~= all.take(i as int).push(category_button(f@.category, i as int)));
        }
        i = i + 1;
    }
    assert(all.take(4) =~= all);
    menu(buttons, 2)
}

/// The minimum-rooms menu.
pub open spec fn rooms_keyboard_spec(f: FiltersModel) -> Seq<Seq<(Seq<char>, Seq<char>)>> {
    menu_spec(room_buttons(f.min_rooms), 3)
}

/// The minimum-rooms menu.
pub fn rooms_keyboard(f: &Filters) -> (k: Keyboard)
    ensures
        k@ == rooms_keyboard_spec(f@),
{
    menu(room_buttons_exec(f.min_rooms), 3)
}

/// Rent presets in SEK; `0` means "any". Bostadsförmedlingen's regulated
/// rents run lower than the open market, hence a finer low end.
pub open spec fn rents() -> Seq<i64> {
    seq![0, 5_000, 6_000, 7_000, 8_000, 9_000, 10_000, 12_000, 15_000, 18_000, 22_000]
}

fn rents_exec() -> (v: Vec<i64>)
    ensures
        v@ == rents(),
{
    let v: Vec<i64> = vec![0, 5_000, 6_000, 7_000, 8_000, 9_000, 10_000, 12_000, 15_000, 18_000, 22_000];
    assert(v@ =~= rents());
    v
}

/// Shared renderer for the min/max rent menus. `prefix` is
/// `minrent`/`maxrent`.
pub fn rent_keyboard(selected: Option<i64>, prefix: &str) -> (k: Keyboard)
    ensures
        k@ == rent_keyboard_spec(rents(), selected, prefix@),
{
    rent_menu(rents_exec(), selected, prefix)
}

/// The button for the kommun at position `i`.
pub open spec fn kommun_button(ks: Seq<Kommun>, i: int) -> (Seq<char>, Seq<char>) {
    let k = kommuner_in_order()[i];
    (mark_spec(ks.contains(k), kommun_label(k)), "kommun:"@ + dec_nat(i as nat))
}

/// The Clear / Done row under the kommun picker.
pub open spec fn kommun_controls_row() -> Seq<(Seq<char>, Seq<char>)> {
    seq![("🧹 Clear"@, "kommunclear"@), ("✅ Done"@, "back"@)]
}

/// The kommun picker: a toggle grid, three wide, then Clear and Done.
pub open spec fn kommun_keyboard_spec(f: FiltersModel) -> Seq<Seq<(Seq<char>, Seq<char>)>> {
    chunks(Seq::new(KOMMUN_COUNT as nat, |i: int| kommun_button(f.kommuner, i)), 3).push(kommun_controls_row())
}

/// Multi-select kommun picker: a toggle grid plus Clear / Done controls.
pub fn kommun_keyboard(f: &Filters) -> (k: Keyboard)
    ensures
        k@ == kommun_keyboard_spec(f@),
{
    let ghost all = Seq::new(KOMMUN_COUNT as nat, |i: int| kommun_button(f@.kommuner, i));
    let mut buttons: Vec<Button> = Vec::new();
    let mut i: usize = 0;
    while i < KOMMUN_COUNT
        invariant
            i <= KOMMUN_COUNT,
            all == Seq::new(KOMMUN_COUNT as nat, |i: int| kommun_button(f@.kommuner, i)),
            buttons_view(buttons@) == all.take(i as int),
        decreases KOMMUN_COUNT - i,
    {
        let k = match Kommun::from_index(i) {
            Some(k) => k,
            None => {
                assert(false);
                Kommun::Stockholm
            },
        };
        let mut data = String::from_str("kommun:");
        push_dec_u64(&mut data, i as u64);
        push_button(&mut buttons, button(mark(contains_kommun(&f.kommuner, k), k.label()), data.as_str()));
        proof {
            assert(all.take(i + 1) =~= all.take(i as int).push(kommun_button(f@.kommuner, i as int)));
        }
        i = i + 1;
    }
    assert(all.take(KOMMUN_COUNT as int) =~= all);
    let mut rows = chunk_rows(buttons, 3);
    let mut controls: Vec<Button> = Vec::new();
    push_button(&mut controls, button(String::from_str("🧹 Clear"), "kommunclear"));
    push_button(&mut controls, button(String::from_str("✅ Done"), "back"));
    assert(row_view(controls) =~= kommun_controls_row());
    push_row(&mut rows, controls);
    Keyboard { rows }
}

/// What a screen shows: its text and its keyboard.
pub open spec fn render_spec(screen: Screen, f: FiltersModel) -> (Seq<char>, Seq<Seq<(Seq<char>, Seq<char>)>>) {
    match screen {
        Screen::Main => (main_text_spec(f), main_keyboard_spec(f)),
        Screen::Category => ("🗂 Ad category:"@, category_keyboard_spec(f)),
        Screen::Rooms => ("🛏 Minimum number of rooms:"@, rooms_keyboard_spec(f)),
        Screen::MinRent => ("💰 Minimum rent (SEK / month):"@, rent_keyboard_spec(rents(), f.min_rent, "minrent"@)),
        Screen::MaxRent => ("💰 Maximum rent (SEK / month):"@, rent_keyboard_spec(rents(), f.max_rent, "maxrent"@)),
        Screen::Kommun => ("📍 Tap kommuner to toggle (none selected = whole region):"@, kommun_keyboard_spec(f)),
    }
}

/// Renders a screen: the message text and its inline keyboard.
pub fn render(screen: Screen, filters: &Filters) -> (r: (String, Keyboard))
    ensures
        (r.0@, r.1@) == render_spec(screen, filters@),
{
    match screen {
        Screen::Main => (main_text(filters), main_keyboard(filters)),
        Screen::Category => (String::from_str("🗂 Ad category:"), category_keyboard(filters)),
        Screen::Rooms => (String::from_str("🛏 Minimum number of rooms:"), rooms_keyboard(filters)),
        Screen::MinRent => (String::from_str("💰 Minimum rent (SEK / month):"), rent_keyboard(filters.min_rent, "minrent")),
        Screen::MaxRent => (String::from_str("💰 Maximum rent (SEK / month):"), rent_keyboard(filters.max_rent, "maxrent")),
        Screen::Kommun => (String::from_str("📍 Tap kommuner to toggle (none selected = whole region):"), kommun_keyboard(filters)),
    }
}


// ---------------------------------------------------------------------------
// What the screens offer
// ---------------------------------------------------------------------------

/// A press whose data is a known key, a colon and any value is never
/// ignored.
proof fn lemma_keyed_press_routed(f: FiltersModel, k: Seq<char>, v: Seq<char>)
    requires
        k == "cat"@ || k == "rooms"@ || k == "minrent"@ || k == "maxrent"@ || k == "kommun"@,
    ensures
        apply_spec(f, k + ":"@ + v).1 != Action::Ignore,
{
    reveal_strlit("cat");
    reveal_strlit("rooms");
    reveal_strlit("minrent");
    reveal_strlit("maxrent");
    reveal_strlit("kommun");
    reveal_strlit(":");
    let d = k + ":"@ + v;
    assert(d[k.len() as int] == ':');
    assert forall|m: int| 0 <= m < k.len() implies d[m] != ':' by {
        assert(d[m] == k[m]);
    }
    crate::text::lemma_index_of_first(d, ':', k.len() as int);
    assert(d.take(k.len() as int) =~= k);
}

/// No kommun's name starts with the selection mark.
proof fn lemma_kommun_label_unmarked(k: Kommun)
    ensures
        !marked(kommun_label(k)),
{
    reveal_strlit("• ");
    reveal_strlit("Stockholm");
    reveal_strlit("Solna");
    reveal_strlit("Sundbyberg");
    reveal_strlit("Nacka");
    reveal_strlit("Lidingö");
    reveal_strlit("Danderyd");
    reveal_strlit("Täby");
    reveal_strlit("Sollentuna");
    reveal_strlit("Järfälla");
    reveal_strlit("Upplands-Bro");
    reveal_strlit("Upplands Väsby");
    reveal_strlit("Sigtuna");
    reveal_strlit("Vallentuna");
    reveal_strlit("Österåker");
    reveal_strlit("Norrtälje");
    reveal_strlit("Värmdö");
    reveal_strlit("Tyresö");
    reveal_strlit("Haninge");
    reveal_strlit("Huddinge");
    reveal_strlit("Botkyrka");
    reveal_strlit("Salem");
    reveal_strlit("Södertälje");
    reveal_strlit("Nykvarn");
    reveal_strlit("Nynäshamn");
    reveal_strlit("Håbo");
    if marked(kommun_label(k)) {
        assert(kommun_label(k).take(2)[0] == kommun_label(k)[0]);
    }
}

/// Every button a screen offers is answered by `apply`, whatever the
/// filters are by the time it is pressed; the main screen offers one row per
/// filter and then Search, under its summary text.
pub proof fn lemma_render_routes_every_button(screen: Screen, f: FiltersModel, g: FiltersModel)
    ensures
        forall|r: int, c: int|
            0 <= r < render_spec(screen, f).1.len() && 0 <= c < render_spec(screen, f).1[r].len() ==> apply_spec(
                g,
                (#[trigger] render_spec(screen, f).1[r][c]).1,
            ).1 != Action::Ignore,
        screen == Screen::Main ==> {
            let kb = render_spec(screen, f).1;
            &&& render_spec(screen, f).0 == main_text_spec(f)
            &&& kb.len() == 6
            &&& forall|r: int| 0 <= r < 6 ==> (#[trigger] kb[r]).len() == 1
            &&& kb[0][0].1 == "menu:cat"@ && kb[1][0].1 == "menu:rooms"@ && kb[2][0].1 == "menu:minrent"@
            &&& kb[3][0].1 == "menu:maxrent"@ && kb[4][0].1 == "menu:kommun"@ && kb[5][0].1 == "go"@
        },
        screen == Screen::Kommun ==> render_spec(screen, f).1 == kommun_keyboard_spec(f),
{
    let kb = render_spec(screen, f).1;
    reveal_strlit("cat:");
    reveal_strlit("rooms:");
    reveal_strlit("kommun:");
    reveal_strlit("cat");
    reveal_strlit("rooms");
    reveal_strlit("kommun");
    reveal_strlit(":");
    match screen {
        Screen::Main => {},
        Screen::Category => {
            let bs = Seq::new(4, |i: int| category_button(f.category, i));
            assert forall|r: int, c: int| 0 <= r < kb.len() && 0 <= c < kb[r].len() implies apply_spec(
                g,
                (#[trigger] kb[r][c]).1,
            ).1 != Action::Ignore by {
                if r < kb.len() - 1 {
                    assert(kb[r] == chunks(bs, 2)[r]);
                    lemma_chunks_member(bs, 2, r, c);
                    let i = choose|i: int| 0 <= i < bs.len() && chunks(bs, 2)[r][c] == bs[i];
                    assert("cat:"@ + dec_nat(i as nat) =~= "cat"@ + ":"@ + dec_nat(i as nat));
                    lemma_keyed_press_routed(g, "cat"@, dec_nat(i as nat));
                }
            }
        },
        Screen::Rooms => {
            let bs = room_buttons(f.min_rooms);
            assert forall|r: int, c: int| 0 <= r < kb.len() && 0 <= c < kb[r].len() implies apply_spec(
                g,
                (#[trigger] kb[r][c]).1,
            ).1 != Action::Ignore by {
                if r < kb.len() - 1 {
                    assert(kb[r] == chunks(bs, 3)[r]);
                    lemma_chunks_member(bs, 3, r, c);
                    let i = choose|i: int| 0 <= i < bs.len() && chunks(bs, 3)[r][c] == bs[i];
                    assert("rooms:"@ + dec_nat(i as nat) =~= "rooms"@ + ":"@ + dec_nat(i as nat));
                    lemma_keyed_press_routed(g, "rooms"@, dec_nat(i as nat));
                }
            }
        },
        Screen::MinRent | Screen::MaxRent => {
            let (sel, prefix) = if screen == Screen::MinRent {
                (f.min_rent, "minrent"@)
            } else {
                (f.max_rent, "maxrent"@)
            };
            let bs = rents().map_values(|v: i64| crate::search::rent_button(sel, prefix, v));
            assert forall|r: int, c: int| 0 <= r < kb.len() && 0 <= c < kb[r].len() implies apply_spec(
                g,
                (#[trigger] kb[r][c]).1,
            ).1 != Action::Ignore by {
                if r < kb.len() - 1 {
                    assert(kb[r] == chunks(bs, 3)[r]);
                    lemma_chunks_member(bs, 3, r, c);
                    let i = choose|i: int| 0 <= i < bs.len() && chunks(bs, 3)[r][c] == bs[i];
                    lemma_keyed_press_routed(g, prefix, crate::text::dec_int(rents()[i] as int));
                }
            }
        },
        Screen::Kommun => {
            let bs = Seq::new(KOMMUN_COUNT as nat, |i: int| kommun_button(f.kommuner, i));
            assert forall|r: int, c: int| 0 <= r < kb.len() && 0 <= c < kb[r].len() implies apply_spec(
                g,
                (#[trigger] kb[r][c]).1,
            ).1 != Action::Ignore by {
                if r < kb.len() - 1 {
                    assert(kb[r] == chunks(bs, 3)[r]);
                    lemma_chunks_member(bs, 3, r, c);
                    let i = choose|i: int| 0 <= i < bs.len() && chunks(bs, 3)[r][c] == bs[i];
                    assert("kommun:"@ + dec_nat(i as nat) =~= "kommun"@ + ":"@ + dec_nat(i as nat));
                    lemma_keyed_press_routed(g, "kommun"@, dec_nat(i as nat));
                } else {
                    assert(kb[r] == kommun_controls_row());
                }
            }
        },
    }
}

/// On the kommun screen the button at row `r`, column `c` of the grid is
/// the one for the kommun at position `3 * r + c`, and it carries the
/// selection mark exactly when that kommun is selected.
pub proof fn lemma_kommun_button_marked(f: FiltersModel, r: int, c: int)
    requires
        0 <= r < kommun_keyboard_spec(f).len() - 1,
        0 <= c < kommun_keyboard_spec(f)[r].len(),
    ensures
        0 <= 3 * r + c < KOMMUN_COUNT,
        kommun_keyboard_spec(f)[r][c] == kommun_button(f.kommuner, 3 * r + c),
        marked(kommun_keyboard_spec(f)[r][c].0) <==> f.kommuner.contains(kommuner_in_order()[3 * r + c]),
{
    let bs = Seq::new(KOMMUN_COUNT as nat, |i: int| kommun_button(f.kommuner, i));
    assert(kommun_keyboard_spec(f)[r] == chunks(bs, 3)[r]);
    lemma_chunks_index(bs, 3, r, c);
    let k = kommuner_in_order()[3 * r + c];
    lemma_kommun_label_unmarked(k);
    reveal_strlit("• ");
    let t = kommun_keyboard_spec(f)[r][c].0;
    if f.kommuner.contains(k) {
        assert(t == "• "@ + kommun_label(k));
        assert(t.take(2) =~= "• "@);
    }
}


// ---------------------------------------------------------------------------
// What the rent presses and the filters mean
// ---------------------------------------------------------------------------

/// A rent press `maxrent:v` sets the maximum rent to `v` (no maximum when `v`
/// is not positive) and `minrent:v` the minimum likewise; each leaves every
/// other filter, the other bound included, as it was, and goes back to the
/// main screen.
pub proof fn lemma_rent_press(f: FiltersModel, v: i64)
    ensures
        apply_spec(f, "maxrent:"@ + crate::text::dec_int(v as int)) == (
            FiltersModel { max_rent: if v > 0 { Some(v) } else { None }, ..f },
            Action::Show(Screen::Main),
        ),
        apply_spec(f, "minrent:"@ + crate::text::dec_int(v as int)) == (
            FiltersModel { min_rent: if v > 0 { Some(v) } else { None }, ..f },
            Action::Show(Screen::Main),
        ),
{
    lemma_rent_press_key(f, v, "maxrent"@);
    lemma_rent_press_key(f, v, "minrent"@);
    reveal_strlit("maxrent:");
    reveal_strlit("minrent:");
    reveal_strlit("maxrent");
    reveal_strlit("minrent");
    reveal_strlit(":");
    let digits = crate::text::dec_int(v as int);
    assert("maxrent:"@ + digits =~= "maxrent"@ + ":"@ + digits);
    assert("minrent:"@ + digits =~= "minrent"@ + ":"@ + digits);
    assert("maxrent"@[1] != "minrent"@[1]);
    assert("maxrent"@ != "minrent"@);
}

/// `lemma_rent_press` for one of the two keys.
proof fn lemma_rent_press_key(f: FiltersModel, v: i64, k: Seq<char>)
    requires
        k == "maxrent"@ || k == "minrent"@,
    ensures
        apply_spec(f, k + ":"@ + crate::text::dec_int(v as int)) == (
            if k == "maxrent"@ {
                FiltersModel { max_rent: if v > 0 { Some(v) } else { None }, ..f }
            } else {
                FiltersModel { min_rent: if v > 0 { Some(v) } else { None }, ..f }
            },
            Action::Show(Screen::Main),
        ),
{
    reveal_strlit("go");
    reveal_strlit("back");
    reveal_strlit("menu:cat");
    reveal_strlit("menu:rooms");
    reveal_strlit("menu:minrent");
    reveal_strlit("menu:maxrent");
    reveal_strlit("menu:kommun");
    reveal_strlit("kommunclear");
    reveal_strlit("cat");
    reveal_strlit("rooms");
    reveal_strlit("minrent");
    reveal_strlit("maxrent");
    reveal_strlit(":");
    let digits = crate::text::dec_int(v as int);
    crate::text::lemma_dec_int_parses(v as int);
    let d = k + ":"@ + digits;
    assert(d.len() >= 8);
    assert(d[0] == 'm');
    assert(d[7] == ':');
    assert forall|m: int| 0 <= m < 7 implies d[m] != ':' by {
        assert(d[m] == k[m]);
    }
    crate::text::lemma_index_of_first(d, ':', 7);
    assert(d.take(7) =~= k);
    assert(d.skip(8) =~= digits);
    assert(d != "go"@ && d != "back"@ && d != "kommunclear"@);
    assert(d[1] != "menu:cat"@[1]);
    assert(d != "menu:cat"@ && d != "menu:rooms"@ && d != "menu:minrent"@);
    assert(d != "menu:maxrent"@ && d != "menu:kommun"@);
    assert(k != "cat"@ && k != "rooms"@);
    assert("maxrent"@[1] != "minrent"@[1]);
    assert("maxrent"@ != "minrent"@);
    assert(parse_i64(digits) == Some(v));
}

/// Each named category picks exactly the ads that carry its own flag:
/// `Snabbt` the fast-track ads, `Student` the student ads, `Regular` the
/// ordinary queue ads; `All` picks every ad. An ad passes a search exactly
/// when it is in the chosen category and passes the other filters.
pub proof fn lemma_category_filter(f: FiltersModel, ad: Ad)
    ensures
        category_matches(Category::Snabbt, &ad) == ad.bostad_snabbt,
        category_matches(Category::Student, &ad) == ad.student,
        category_matches(Category::Regular, &ad) == ad.vanlig,
        category_matches(Category::All, &ad),
        passes_spec(f, &ad) == ((match f.category {
            Category::Snabbt => ad.bostad_snabbt,
            Category::Student => ad.student,
            Category::Regular => ad.vanlig,
            Category::All => true,
        }) && passes_spec(FiltersModel { category: Category::All, ..f }, &ad)),
{
}

/// The room filter is a lower bound on the room count and nothing else:
/// with a minimum set, an ad passes exactly when its room count is known
/// and at least the minimum and it passes the other filters, whatever its
/// room count; without one the room count plays no part. So more rooms
/// never turn a passing ad into a failing one.
pub proof fn lemma_room_filter_is_a_lower_bound(f: FiltersModel, ad: Ad, rooms: Option<i64>)
    ensures
        passes_spec(f, &Ad { antal_rum_tenths: rooms, ..ad }) == ((f.min_rooms == 0 || match rooms {
            Some(r) => r >= f.min_rooms * 10,
            None => false,
        }) && passes_spec(FiltersModel { min_rooms: 0, ..f }, &ad)),
        forall|r1: i64, r2: i64|
            r1 <= r2 && #[trigger] passes_spec(f, &Ad { antal_rum_tenths: Some(r1), ..ad }) ==> #[trigger] passes_spec(
                f,
                &Ad { antal_rum_tenths: Some(r2), ..ad },
            ),
{
}

/// The rent filter is a range on the ad's rent and nothing else: an ad
/// passes exactly when each bound that is set holds of its known rent and it
/// passes the other filters.
pub proof fn lemma_rent_filter_is_a_range(f: FiltersModel, ad: Ad)
    ensures
        passes_spec(f, &ad) == ((match f.min_rent {
            Some(m) => match ad_rent(&ad) {
                Some(x) => x >= m,
                None => false,
            },
            None => true,
        }) && (match f.max_rent {
            Some(m) => match ad_rent(&ad) {
                Some(x) => x <= m,
                None => false,
            },
            None => true,
        }) && passes_spec(FiltersModel { min_rent: None, max_rent: None, ..f }, &ad)),
{
}

/// A category press `cat:i` picks the category at position `i` of the menu
/// (0 fast track, 1 student, 2 regular queue, 3 all ads) and leaves the
/// category otherwise; it leaves every other filter as it was and goes back
/// to the main screen.
pub proof fn lemma_category_press(f: FiltersModel, i: usize)
    ensures
        apply_spec(f, "cat:"@ + dec_nat(i as nat)) == (
            if i == 0 {
                FiltersModel { category: Category::Snabbt, ..f }
            } else if i == 1 {
                FiltersModel { category: Category::Student, ..f }
            } else if i == 2 {
                FiltersModel { category: Category::Regular, ..f }
            } else if i == 3 {
                FiltersModel { category: Category::All, ..f }
            } else {
                f
            },
            Action::Show(Screen::Main),
        ),
{
    reveal_strlit("go");
    reveal_strlit("back");
    reveal_strlit("menu:cat");
    reveal_strlit("menu:rooms");
    reveal_strlit("menu:minrent");
    reveal_strlit("menu:maxrent");
    reveal_strlit("menu:kommun");
    reveal_strlit("kommunclear");
    reveal_strlit("cat:");
    reveal_strlit("cat");
    let digits = dec_nat(i as nat);
    lemma_dec_nat_parses(i as nat);
    let d = "cat:"@ + digits;
    assert(d.len() >= 5);
    assert(d[0] == 'c' && d[3] == ':');
    assert forall|m: int| 0 <= m < 3 implies d[m] != ':' by {
        assert(d[m] == "cat:"@[m]);
    }
    crate::text::lemma_index_of_first(d, ':', 3);
    assert(d.take(3) =~= "cat"@);
    assert(d.skip(4) =~= digits);
    assert(d[0] != "kommunclear"@[0] && d[0] != "go"@[0] && d[0] != "back"@[0]);
    assert(d != "go"@ && d != "back"@ && d != "kommunclear"@);
    assert(d[0] != "menu:cat"@[0]);
    assert(d != "menu:cat"@ && d != "menu:rooms"@ && d != "menu:minrent"@);
    assert(d != "menu:maxrent"@ && d != "menu:kommun"@);
    assert(is_ascii_digit(digits[0]));
    assert(parse_unsigned(digits, usize::MAX as nat) == Some(i as nat));
}
} // verus!
