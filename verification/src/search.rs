//! Interactive `/search` filter builder.
//!
//! The main screen shows one button per filter; tapping a filter opens its
//! own sub-menu of options (like the neighborhood picker), so each dimension
//! can offer granular choices without crowding one screen. Areas are
//! multi-select. Age and areas are pushed to the API; rooms and rent are
//! filtered client-side.

use vstd::prelude::*;

use crate::qasa::Home;
use crate::text::{chars_of, dec_int, dec_nat, is_ascii_digit, lemma_dec_nat_parses, index_of, index_of_in, parse_i64, parse_i64_range, parse_unsigned, parse_unsigned_range, push_dec_i64, push_dec_u64, range_is};

verus! {

/// Number of selectable areas.
pub const AREA_COUNT: usize = 59;

/// A selectable Stockholm-region area.
///
/// Each (label, slug) pair was verified live against the API: the slug
/// returns a real subset of listings (an invalid slug silently falls back to
/// a country-wide result, so this list is curated from probing).
#[derive(Clone, Copy, Debug, PartialEq, Eq, Structural)]
pub enum Area {
    Sodermalm,
    Kungsholmen,
    Vasastan,
    Ostermalm,
    Norrmalm,
    GamlaStan,
    Gardet,
    Djurgarden,
    HammarbySjostad,
    Liljeholmen,
    Hagersten,
    Aspudden,
    Midsommarkransen,
    Telefonplan,
    Arsta,
    Gullmarsplan,
    Hammarbyhojden,
    Bjorkhagen,
    Karrtorp,
    Enskede,
    Stureby,
    Bandhagen,
    Hogdalen,
    Ragsved,
    Hagsatra,
    Farsta,
    Skondal,
    Gubbangen,
    Alvsjo,
    Hokarangen,
    Skarpnack,
    Bagarmossen,
    Kista,
    Husby,
    Akalla,
    Rinkeby,
    Tensta,
    Spanga,
    Hasselby,
    Vallingby,
    Blackeberg,
    Bromma,
    Traneberg,
    Mariehall,
    Sundbyberg,
    Solna,
    Sollentuna,
    Nacka,
    Sickla,
    Danderyd,
    Lidingo,
    Huddinge,
    Jarfalla,
    Taby,
    Skarholmen,
    Fruangen,
    Bredang,
    Norsborg,
    Fredhall,
}

/// The display name of an area.
pub open spec fn area_label(a: Area) -> Seq<char> {
    match a {
        Area::Sodermalm => "Södermalm"@,
        Area::Kungsholmen => "Kungsholmen"@,
        Area::Vasastan => "Vasastan"@,
        Area::Ostermalm => "Östermalm"@,
        Area::Norrmalm => "Norrmalm"@,
        Area::GamlaStan => "Gamla stan"@,
        Area::Gardet => "Gärdet"@,
        Area::Djurgarden => "Djurgården"@,
        Area::HammarbySjostad => "Hammarby Sjöstad"@,
        Area::Liljeholmen => "Liljeholmen"@,
        Area::Hagersten => "Hägersten"@,
        Area::Aspudden => "Aspudden"@,
        Area::Midsommarkransen => "Midsommarkransen"@,
        Area::Telefonplan => "Telefonplan"@,
        Area::Arsta => "Årsta"@,
        Area::Gullmarsplan => "Gullmarsplan"@,
        Area::Hammarbyhojden => "Hammarbyhöjden"@,
        Area::Bjorkhagen => "Björkhagen"@,
        Area::Karrtorp => "Kärrtorp"@,
        Area::Enskede => "Enskede"@,
        Area::Stureby => "Stureby"@,
        Area::Bandhagen => "Bandhagen"@,
        Area::Hogdalen => "Högdalen"@,
        Area::Ragsved => "Rågsved"@,
        Area::Hagsatra => "Hagsätra"@,
        Area::Farsta => "Farsta"@,
        Area::Skondal => "Sköndal"@,
        Area::Gubbangen => "Gubbängen"@,
        Area::Alvsjo => "Älvsjö"@,
        Area::Hokarangen => "Hökarängen"@,
        Area::Skarpnack => "Skarpnäck"@,
        Area::Bagarmossen => "Bagarmossen"@,
        Area::Kista => "Kista"@,
        Area::Husby => "Husby"@,
        Area::Akalla => "Akalla"@,
        Area::Rinkeby => "Rinkeby"@,
        Area::Tensta => "Tensta"@,
        Area::Spanga => "Spånga"@,
        Area::Hasselby => "Hässelby"@,
        Area::Vallingby => "Vällingby"@,
        Area::Blackeberg => "Blackeberg"@,
        Area::Bromma => "Bromma"@,
        Area::Traneberg => "Traneberg"@,
        Area::Mariehall => "Mariehäll"@,
        Area::Sundbyberg => "Sundbyberg"@,
        Area::Solna => "Solna"@,
        Area::Sollentuna => "Sollentuna"@,
        Area::Nacka => "Nacka"@,
        Area::Sickla => "Sickla"@,
        Area::Danderyd => "Danderyd"@,
        Area::Lidingo => "Lidingö"@,
        Area::Huddinge => "Huddinge"@,
        Area::Jarfalla => "Järfälla"@,
        Area::Taby => "Täby"@,
        Area::Skarholmen => "Skärholmen"@,
        Area::Fruangen => "Fruängen"@,
        Area::Bredang => "Bredäng"@,
        Area::Norsborg => "Norsborg"@,
        Area::Fredhall => "Fredhäll"@,
    }
}

/// The Qasa `areaIdentifier` of an area.
pub open spec fn area_slug(a: Area) -> Seq<char> {
    match a {
        Area::Sodermalm => "se/sodermalm"@,
        Area::Kungsholmen => "se/kungsholmen"@,
        Area::Vasastan => "se/vasastan"@,
        Area::Ostermalm => "se/ostermalm"@,
        Area::Norrmalm => "se/norrmalm"@,
        Area::GamlaStan => "se/gamla_stan"@,
        Area::Gardet => "se/gardet"@,
        Area::Djurgarden => "se/djurgarden"@,
        Area::HammarbySjostad => "se/hammarby_sjostad"@,
        Area::Liljeholmen => "se/liljeholmen"@,
        Area::Hagersten => "se/hagersten"@,
        Area::Aspudden => "se/aspudden"@,
        Area::Midsommarkransen => "se/midsommarkransen"@,
        Area::Telefonplan => "se/telefonplan"@,
        Area::Arsta => "se/arsta"@,
        Area::Gullmarsplan => "se/gullmarsplan"@,
        Area::Hammarbyhojden => "se/hammarbyhojden"@,
        Area::Bjorkhagen => "se/björkhagen"@,
        Area::Karrtorp => "se/kärrtorp"@,
        Area::Enskede => "se/enskede"@,
        Area::Stureby => "se/stureby"@,
        Area::Bandhagen => "se/bandhagen"@,
        Area::Hogdalen => "se/högdalen"@,
        Area::Ragsved => "se/rågsved"@,
        Area::Hagsatra => "se/hagsatra"@,
        Area::Farsta => "se/farsta"@,
        Area::Skondal => "se/sköndal"@,
        Area::Gubbangen => "se/gubbangen"@,
        Area::Alvsjo => "se/alvsjo"@,
        Area::Hokarangen => "se/hokarangen"@,
        Area::Skarpnack => "se/skarpnäck"@,
        Area::Bagarmossen => "se/bagarmossen"@,
        Area::Kista => "se/kista"@,
        Area::Husby => "se/husby"@,
        Area::Akalla => "se/akalla"@,
        Area::Rinkeby => "se/rinkeby"@,
        Area::Tensta => "se/tensta"@,
        Area::Spanga => "se/spanga"@,
        Area::Hasselby => "se/hässelby"@,
        Area::Vallingby => "se/vallingby"@,
        Area::Blackeberg => "se/blackeberg"@,
        Area::Bromma => "se/bromma"@,
        Area::Traneberg => "se/traneberg"@,
        Area::Mariehall => "se/mariehäll"@,
        Area::Sundbyberg => "se/sundbyberg"@,
        Area::Solna => "se/solna"@,
        Area::Sollentuna => "se/sollentuna"@,
        Area::Nacka => "se/nacka"@,
        Area::Sickla => "se/sickla"@,
        Area::Danderyd => "se/danderyd"@,
        Area::Lidingo => "se/lidingo"@,
        Area::Huddinge => "se/huddinge"@,
        Area::Jarfalla => "se/jarfalla"@,
        Area::Taby => "se/taby"@,
        Area::Skarholmen => "se/skarholmen"@,
        Area::Fruangen => "se/fruängen"@,
        Area::Bredang => "se/bredäng"@,
        Area::Norsborg => "se/norsborg"@,
        Area::Fredhall => "se/fredhäll"@,
    }
}

/// The position of an area in display order.
pub open spec fn area_index(a: Area) -> int {
    match a {
        Area::Sodermalm => 0,
        Area::Kungsholmen => 1,
        Area::Vasastan => 2,
        Area::Ostermalm => 3,
        Area::Norrmalm => 4,
        Area::GamlaStan => 5,
        Area::Gardet => 6,
        Area::Djurgarden => 7,
        Area::HammarbySjostad => 8,
        Area::Liljeholmen => 9,
        Area::Hagersten => 10,
        Area::Aspudden => 11,
        Area::Midsommarkransen => 12,
        Area::Telefonplan => 13,
        Area::Arsta => 14,
        Area::Gullmarsplan => 15,
        Area::Hammarbyhojden => 16,
        Area::Bjorkhagen => 17,
        Area::Karrtorp => 18,
        Area::Enskede => 19,
        Area::Stureby => 20,
        Area::Bandhagen => 21,
        Area::Hogdalen => 22,
        Area::Ragsved => 23,
        Area::Hagsatra => 24,
        Area::Farsta => 25,
        Area::Skondal => 26,
        Area::Gubbangen => 27,
        Area::Alvsjo => 28,
        Area::Hokarangen => 29,
        Area::Skarpnack => 30,
        Area::Bagarmossen => 31,
        Area::Kista => 32,
        Area::Husby => 33,
        Area::Akalla => 34,
        Area::Rinkeby => 35,
        Area::Tensta => 36,
        Area::Spanga => 37,
        Area::Hasselby => 38,
        Area::Vallingby => 39,
        Area::Blackeberg => 40,
        Area::Bromma => 41,
        Area::Traneberg => 42,
        Area::Mariehall => 43,
        Area::Sundbyberg => 44,
        Area::Solna => 45,
        Area::Sollentuna => 46,
        Area::Nacka => 47,
        Area::Sickla => 48,
        Area::Danderyd => 49,
        Area::Lidingo => 50,
        Area::Huddinge => 51,
        Area::Jarfalla => 52,
        Area::Taby => 53,
        Area::Skarholmen => 54,
        Area::Fruangen => 55,
        Area::Bredang => 56,
        Area::Norsborg => 57,
        Area::Fredhall => 58,
    }
}

/// All areas, in display order.
pub open spec fn areas_in_order() -> Seq<Area> {
    seq![
        Area::Sodermalm,
        Area::Kungsholmen,
        Area::Vasastan,
        Area::Ostermalm,
        Area::Norrmalm,
        Area::GamlaStan,
        Area::Gardet,
        Area::Djurgarden,
        Area::HammarbySjostad,
        Area::Liljeholmen,
        Area::Hagersten,
        Area::Aspudden,
        Area::Midsommarkransen,
        Area::Telefonplan,
        Area::Arsta,
        Area::Gullmarsplan,
        Area::Hammarbyhojden,
        Area::Bjorkhagen,
        Area::Karrtorp,
        Area::Enskede,
        Area::Stureby,
        Area::Bandhagen,
        Area::Hogdalen,
        Area::Ragsved,
        Area::Hagsatra,
        Area::Farsta,
        Area::Skondal,
        Area::Gubbangen,
        Area::Alvsjo,
        Area::Hokarangen,
        Area::Skarpnack,
        Area::Bagarmossen,
        Area::Kista,
        Area::Husby,
        Area::Akalla,
        Area::Rinkeby,
        Area::Tensta,
        Area::Spanga,
        Area::Hasselby,
        Area::Vallingby,
        Area::Blackeberg,
        Area::Bromma,
        Area::Traneberg,
        Area::Mariehall,
        Area::Sundbyberg,
        Area::Solna,
        Area::Sollentuna,
        Area::Nacka,
        Area::Sickla,
        Area::Danderyd,
        Area::Lidingo,
        Area::Huddinge,
        Area::Jarfalla,
        Area::Taby,
        Area::Skarholmen,
        Area::Fruangen,
        Area::Bredang,
        Area::Norsborg,
        Area::Fredhall,
    ]
}

/// The area at a position in display order.
pub open spec fn area_at(i: int) -> Option<Area> {
    if 0 <= i < AREA_COUNT {
        Some(areas_in_order()[i])
    } else {
        None
    }
}

/// Every area's slug starts with `se/`, and no two areas share a slug.
pub proof fn lemma_area_slugs_prefixed_and_unique(a: Area, b: Area)
    ensures
        area_slug(a).len() > 3,
        area_slug(a).subrange(0, 3) == "se/"@,
        a != b ==> area_slug(a) != area_slug(b),
{
    reveal_strlit("se/");
    reveal_strlit("se/sodermalm");
    reveal_strlit("se/kungsholmen");
    reveal_strlit("se/vasastan");
    reveal_strlit("se/ostermalm");
    reveal_strlit("se/norrmalm");
    reveal_strlit("se/gamla_stan");
    reveal_strlit("se/gardet");
    reveal_strlit("se/djurgarden");
    reveal_strlit("se/hammarby_sjostad");
    reveal_strlit("se/liljeholmen");
    reveal_strlit("se/hagersten");
    reveal_strlit("se/aspudden");
    reveal_strlit("se/midsommarkransen");
    reveal_strlit("se/telefonplan");
    reveal_strlit("se/arsta");
    reveal_strlit("se/gullmarsplan");
    reveal_strlit("se/hammarbyhojden");
    reveal_strlit("se/björkhagen");
    reveal_strlit("se/kärrtorp");
    reveal_strlit("se/enskede");
    reveal_strlit("se/stureby");
    reveal_strlit("se/bandhagen");
    reveal_strlit("se/högdalen");
    reveal_strlit("se/rågsved");
    reveal_strlit("se/hagsatra");
    reveal_strlit("se/farsta");
    reveal_strlit("se/sköndal");
    reveal_strlit("se/gubbangen");
    reveal_strlit("se/alvsjo");
    reveal_strlit("se/hokarangen");
    reveal_strlit("se/skarpnäck");
    reveal_strlit("se/bagarmossen");
    reveal_strlit("se/kista");
    reveal_strlit("se/husby");
    reveal_strlit("se/akalla");
    reveal_strlit("se/rinkeby");
    reveal_strlit("se/tensta");
    reveal_strlit("se/spanga");
    reveal_strlit("se/hässelby");
    reveal_strlit("se/vallingby");
    reveal_strlit("se/blackeberg");
    reveal_strlit("se/bromma");
    reveal_strlit("se/traneberg");
    reveal_strlit("se/mariehäll");
    reveal_strlit("se/sundbyberg");
    reveal_strlit("se/solna");
    reveal_strlit("se/sollentuna");
    reveal_strlit("se/nacka");
    reveal_strlit("se/sickla");
    reveal_strlit("se/danderyd");
    reveal_strlit("se/lidingo");
    reveal_strlit("se/huddinge");
    reveal_strlit("se/jarfalla");
    reveal_strlit("se/taby");
    reveal_strlit("se/skarholmen");
    reveal_strlit("se/fruängen");
    reveal_strlit("se/bredäng");
    reveal_strlit("se/norsborg");
    reveal_strlit("se/fredhäll");
    if area_slug(a) == area_slug(b) {
        assert(area_slug(a).len() == area_slug(b).len());
        assert(area_slug(a)[3] == area_slug(b)[3]);
        assert(area_slug(a)[5] == area_slug(b)[5]);
        assert(area_slug(a)[6] == area_slug(b)[6]);
    }
}

impl Area {
    /// The area's name as shown on buttons.
    pub fn label(self) -> (r: &'static str)
        ensures
            r@ == area_label(self),
    {
        match self {
            Area::Sodermalm => "Södermalm",
            Area::Kungsholmen => "Kungsholmen",
            Area::Vasastan => "Vasastan",
            Area::Ostermalm => "Östermalm",
            Area::Norrmalm => "Norrmalm",
            Area::GamlaStan => "Gamla stan",
            Area::Gardet => "Gärdet",
            Area::Djurgarden => "Djurgården",
            Area::HammarbySjostad => "Hammarby Sjöstad",
            Area::Liljeholmen => "Liljeholmen",
            Area::Hagersten => "Hägersten",
            Area::Aspudden => "Aspudden",
            Area::Midsommarkransen => "Midsommarkransen",
            Area::Telefonplan => "Telefonplan",
            Area::Arsta => "Årsta",
            Area::Gullmarsplan => "Gullmarsplan",
            Area::Hammarbyhojden => "Hammarbyhöjden",
            Area::Bjorkhagen => "Björkhagen",
            Area::Karrtorp => "Kärrtorp",
            Area::Enskede => "Enskede",
            Area::Stureby => "Stureby",
            Area::Bandhagen => "Bandhagen",
            Area::Hogdalen => "Högdalen",
            Area::Ragsved => "Rågsved",
            Area::Hagsatra => "Hagsätra",
            Area::Farsta => "Farsta",
            Area::Skondal => "Sköndal",
            Area::Gubbangen => "Gubbängen",
            Area::Alvsjo => "Älvsjö",
            Area::Hokarangen => "Hökarängen",
            Area::Skarpnack => "Skarpnäck",
            Area::Bagarmossen => "Bagarmossen",
            Area::Kista => "Kista",
            Area::Husby => "Husby",
            Area::Akalla => "Akalla",
            Area::Rinkeby => "Rinkeby",
            Area::Tensta => "Tensta",
            Area::Spanga => "Spånga",
            Area::Hasselby => "Hässelby",
            Area::Vallingby => "Vällingby",
            Area::Blackeberg => "Blackeberg",
            Area::Bromma => "Bromma",
            Area::Traneberg => "Traneberg",
            Area::Mariehall => "Mariehäll",
            Area::Sundbyberg => "Sundbyberg",
            Area::Solna => "Solna",
            Area::Sollentuna => "Sollentuna",
            Area::Nacka => "Nacka",
            Area::Sickla => "Sickla",
            Area::Danderyd => "Danderyd",
            Area::Lidingo => "Lidingö",
            Area::Huddinge => "Huddinge",
            Area::Jarfalla => "Järfälla",
            Area::Taby => "Täby",
            Area::Skarholmen => "Skärholmen",
            Area::Fruangen => "Fruängen",
            Area::Bredang => "Bredäng",
            Area::Norsborg => "Norsborg",
            Area::Fredhall => "Fredhäll",
        }
    }

    /// The Qasa `areaIdentifier` for this area.
    pub fn slug(self) -> (r: &'static str)
        ensures
            r@ == area_slug(self),
    {
        match self {
            Area::Sodermalm => "se/sodermalm",
            Area::Kungsholmen => "se/kungsholmen",
            Area::Vasastan => "se/vasastan",
            Area::Ostermalm => "se/ostermalm",
            Area::Norrmalm => "se/norrmalm",
            Area::GamlaStan => "se/gamla_stan",
            Area::Gardet => "se/gardet",
            Area::Djurgarden => "se/djurgarden",
            Area::HammarbySjostad => "se/hammarby_sjostad",
            Area::Liljeholmen => "se/liljeholmen",
            Area::Hagersten => "se/hagersten",
            Area::Aspudden => "se/aspudden",
            Area::Midsommarkransen => "se/midsommarkransen",
            Area::Telefonplan => "se/telefonplan",
            Area::Arsta => "se/arsta",
            Area::Gullmarsplan => "se/gullmarsplan",
            Area::Hammarbyhojden => "se/hammarbyhojden",
            Area::Bjorkhagen => "se/björkhagen",
            Area::Karrtorp => "se/kärrtorp",
            Area::Enskede => "se/enskede",
            Area::Stureby => "se/stureby",
            Area::Bandhagen => "se/bandhagen",
            Area::Hogdalen => "se/högdalen",
            Area::Ragsved => "se/rågsved",
            Area::Hagsatra => "se/hagsatra",
            Area::Farsta => "se/farsta",
            Area::Skondal => "se/sköndal",
            Area::Gubbangen => "se/gubbangen",
            Area::Alvsjo => "se/alvsjo",
            Area::Hokarangen => "se/hokarangen",
            Area::Skarpnack => "se/skarpnäck",
            Area::Bagarmossen => "se/bagarmossen",
            Area::Kista => "se/kista",
            Area::Husby => "se/husby",
            Area::Akalla => "se/akalla",
            Area::Rinkeby => "se/rinkeby",
            Area::Tensta => "se/tensta",
            Area::Spanga => "se/spanga",
            Area::Hasselby => "se/hässelby",
            Area::Vallingby => "se/vallingby",
            Area::Blackeberg => "se/blackeberg",
            Area::Bromma => "se/bromma",
            Area::Traneberg => "se/traneberg",
            Area::Mariehall => "se/mariehäll",
            Area::Sundbyberg => "se/sundbyberg",
            Area::Solna => "se/solna",
            Area::Sollentuna => "se/sollentuna",
            Area::Nacka => "se/nacka",
            Area::Sickla => "se/sickla",
            Area::Danderyd => "se/danderyd",
            Area::Lidingo => "se/lidingo",
            Area::Huddinge => "se/huddinge",
            Area::Jarfalla => "se/jarfalla",
            Area::Taby => "se/taby",
            Area::Skarholmen => "se/skarholmen",
            Area::Fruangen => "se/fruängen",
            Area::Bredang => "se/bredäng",
            Area::Norsborg => "se/norsborg",
            Area::Fredhall => "se/fredhäll",
        }
    }

    /// The area at position `i` in display order.
    pub fn from_index(i: usize) -> (r: Option<Area>)
        ensures
            r == area_at(i as int),
    {
        match i {
            0 => Some(Area::Sodermalm),
            1 => Some(Area::Kungsholmen),
            2 => Some(Area::Vasastan),
            3 => Some(Area::Ostermalm),
            4 => Some(Area::Norrmalm),
            5 => Some(Area::GamlaStan),
            6 => Some(Area::Gardet),
            7 => Some(Area::Djurgarden),
            8 => Some(Area::HammarbySjostad),
            9 => Some(Area::Liljeholmen),
            10 => Some(Area::Hagersten),
            11 => Some(Area::Aspudden),
            12 => Some(Area::Midsommarkransen),
            13 => Some(Area::Telefonplan),
            14 => Some(Area::Arsta),
            15 => Some(Area::Gullmarsplan),
            16 => Some(Area::Hammarbyhojden),
            17 => Some(Area::Bjorkhagen),
            18 => Some(Area::Karrtorp),
            19 => Some(Area::Enskede),
            20 => Some(Area::Stureby),
            21 => Some(Area::Bandhagen),
            22 => Some(Area::Hogdalen),
            23 => Some(Area::Ragsved),
            24 => Some(Area::Hagsatra),
            25 => Some(Area::Farsta),
            26 => Some(Area::Skondal),
            27 => Some(Area::Gubbangen),
            28 => Some(Area::Alvsjo),
            29 => Some(Area::Hokarangen),
            30 => Some(Area::Skarpnack),
            31 => Some(Area::Bagarmossen),
            32 => Some(Area::Kista),
            33 => Some(Area::Husby),
            34 => Some(Area::Akalla),
            35 => Some(Area::Rinkeby),
            36 => Some(Area::Tensta),
            37 => Some(Area::Spanga),
            38 => Some(Area::Hasselby),
            39 => Some(Area::Vallingby),
            40 => Some(Area::Blackeberg),
            41 => Some(Area::Bromma),
            42 => Some(Area::Traneberg),
            43 => Some(Area::Mariehall),
            44 => Some(Area::Sundbyberg),
            45 => Some(Area::Solna),
            46 => Some(Area::Sollentuna),
            47 => Some(Area::Nacka),
            48 => Some(Area::Sickla),
            49 => Some(Area::Danderyd),
            50 => Some(Area::Lidingo),
            51 => Some(Area::Huddinge),
            52 => Some(Area::Jarfalla),
            53 => Some(Area::Taby),
            54 => Some(Area::Skarholmen),
            55 => Some(Area::Fruangen),
            56 => Some(Area::Bredang),
            57 => Some(Area::Norsborg),
            58 => Some(Area::Fredhall),
            _ => None,
        }
    }

    /// All areas, in display order.
    pub fn all() -> (r: Vec<Area>)
        ensures
            r@.len() == AREA_COUNT,
            forall|i: int| 0 <= i < AREA_COUNT ==> area_at(i) == Some(#[trigger] r@[i]),
    {
        let mut r: Vec<Area> = Vec::new();
        let mut i: usize = 0;
        while i < AREA_COUNT
            invariant
                i <= AREA_COUNT,
                r@.len() == i,
                forall|k: int| 0 <= k < i ==> area_at(k) == Some(#[trigger] r@[k]),
            decreases AREA_COUNT - i,
        {
            match Area::from_index(i) {
                Some(a) => r.push(a),
                None => {
                    assert(false);
                },
            }
            i = i + 1;
        }
        r
    }
}

/// Display order and positions agree.
pub proof fn lemma_area_index(a: Area)
    ensures
        0 <= area_index(a) < AREA_COUNT,
        area_at(area_index(a)) == Some(a),
{
}

/// Every position below the count holds an area.
pub proof fn lemma_area_at(i: int)
    requires
        0 <= i < AREA_COUNT,
    ensures
        area_at(i) matches Some(a) && area_index(a) == i,
{
}


// ---------------------------------------------------------------------------
// Sequences of selected items
// ---------------------------------------------------------------------------

/// The index of the first `x` in `s` at or after `i`.
pub open spec fn first_index_from<T>(s: Seq<T>, x: T, i: int) -> Option<int>
    decreases s.len() - i,
{
    if i < 0 || i >= s.len() {
        None
    } else if s[i] == x {
        Some(i)
    } else {
        first_index_from(s, x, i + 1)
    }
}

/// `s` with `x` taken out (its first occurrence) if present, else appended.
pub open spec fn toggled<T>(s: Seq<T>, x: T) -> Seq<T> {
    match first_index_from(s, x, 0) {
        Some(p) => s.remove(p),
        None => s.push(x),
    }
}

/// What `first_index_from` finds: the first occurrence at or after `i`.
pub proof fn lemma_first_index_from<T>(s: Seq<T>, x: T, i: int)
    requires
        0 <= i,
    ensures
        match first_index_from(s, x, i) {
            Some(p) => i <= p < s.len() && s[p] == x && forall|m: int| i <= m < p ==> s[m] != x,
            None => forall|m: int| i <= m < s.len() ==> s[m] != x,
        },
    decreases s.len() - i,
{
    if i < s.len() && s[i] != x {
        lemma_first_index_from(s, x, i + 1);
    }
}

/// Toggling an item twice restores the selection, as a set; toggling keeps
/// a selection free of duplicates and flips whether it holds the item.
pub proof fn lemma_toggle_twice<T>(s: Seq<T>, x: T)
    requires
        s.no_duplicates(),
    ensures
        toggled(s, x).no_duplicates(),
        toggled(s, x).contains(x) == !s.contains(x),
        forall|y: T| y != x ==> (toggled(s, x).contains(y) == s.contains(y)),
        toggled(toggled(s, x), x).to_set() == s.to_set(),
{
    lemma_toggle(s, x);
    lemma_toggle(toggled(s, x), x);
    assert(toggled(toggled(s, x), x).to_set() =~= s.to_set());
}

/// What one toggle does to a duplicate-free selection.
pub proof fn lemma_toggle<T>(s: Seq<T>, x: T)
    requires
        s.no_duplicates(),
    ensures
        toggled(s, x).no_duplicates(),
        toggled(s, x).contains(x) == !s.contains(x),
        forall|y: T| y != x ==> (toggled(s, x).contains(y) == s.contains(y)),
{
    lemma_first_index_from(s, x, 0);
    let t = toggled(s, x);
    match first_index_from(s, x, 0) {
        Some(p) => {
            assert forall|y: T| y != x implies (t.contains(y) == s.contains(y)) by {
                if s.contains(y) {
                    let k = choose|k: int| 0 <= k < s.len() && s[k] == y;
                    if k < p {
                        assert(t[k] == y);
                    } else {
                        assert(k != p);
                        assert(t[k - 1] == y);
                    }
                }
                if t.contains(y) {
                    let k = choose|k: int| 0 <= k < t.len() && t[k] == y;
                    if k < p {
                        assert(s[k] == y);
                    } else {
                        assert(s[k + 1] == y);
                    }
                }
            }
            if t.contains(x) {
                let k = choose|k: int| 0 <= k < t.len() && t[k] == x;
                if k < p {
                    assert(s[k] == x);
                } else {
                    assert(s[k + 1] == x);
                }
            }
            assert(s.contains(x));
            assert forall|i: int, j: int| 0 <= i < t.len() && 0 <= j < t.len() && i != j implies t[i] != t[j] by {
                let si = if i < p { i } else { i + 1 };
                let sj = if j < p { j } else { j + 1 };
                assert(t[i] == s[si]);
                assert(t[j] == s[sj]);
            }
        },
        None => {
            assert(t == s.push(x));
            assert(t[s.len() as int] == x);
            if s.contains(x) {
                let k = choose|k: int| 0 <= k < s.len() && s[k] == x;
                assert(false);
            }
            assert forall|y: T| y != x implies (t.contains(y) == s.contains(y)) by {
                if s.contains(y) {
                    let k = choose|k: int| 0 <= k < s.len() && s[k] == y;
                    assert(t[k] == y);
                }
                if t.contains(y) {
                    let k = choose|k: int| 0 <= k < t.len() && t[k] == y;
                    assert(k < s.len());
                    assert(s[k] == y);
                }
            }
            assert forall|i: int, j: int| 0 <= i < t.len() && 0 <= j < t.len() && i != j implies t[i] != t[j] by {
                if i < s.len() && j < s.len() {
                    assert(t[i] == s[i] && t[j] == s[j]);
                } else if i < s.len() {
                    assert(t[i] == s[i]);
                } else if j < s.len() {
                    assert(t[j] == s[j]);
                }
            }
        },
    }
}

/// The short summary of a selection: a fallback when nothing is selected,
/// the one name, two names, or two names and how many more.
pub open spec fn summary_of(names: Seq<Seq<char>>, none: Seq<char>) -> Seq<char> {
    if names.len() == 0 {
        none
    } else if names.len() == 1 {
        names[0]
    } else if names.len() == 2 {
        names[0] + ", "@ + names[1]
    } else {
        names[0] + ", "@ + names[1] + " +"@ + dec_nat((names.len() - 2) as nat)
    }
}

/// The summary of a selection of names.
pub fn summary_text(names: &Vec<&'static str>, none: &str) -> (r: String)
    ensures
        r@ == summary_of(names@.map_values(|n: &'static str| n@), none@),
{
    let ghost ns = names@.map_values(|n: &'static str| n@);
    let mut r = String::new();
    if names.len() == 0 {
        r.append(none);
    } else if names.len() == 1 {
        r.append(names[0]);
    } else {
        r.append(names[0]);
        r.append(", ");
        r.append(names[1]);
        if names.len() > 2 {
            r.append(" +");
            push_dec_u64(&mut r, (names.len() - 2) as u64);
        }
    }
    r
}

// ---------------------------------------------------------------------------
// Filters
// ---------------------------------------------------------------------------

/// When no area is selected, search the whole city.
pub const ALL_STOCKHOLM: &'static str = "se/stockholm";

/// Current selection for an in-progress search.
#[derive(Clone, Debug)]
pub struct Filters {
    pub age_hours: i64,
    /// Minimum room count; 0 = any.
    pub min_rooms: u8,
    /// Min/max monthly rent in SEK; None = any.
    pub min_rent: Option<i64>,
    pub max_rent: Option<i64>,
    /// Selected areas; empty = whole city.
    pub areas: Vec<Area>,
}

/// What a `Filters` holds.
pub struct FiltersModel {
    pub age_hours: i64,
    pub min_rooms: u8,
    pub min_rent: Option<i64>,
    pub max_rent: Option<i64>,
    pub areas: Seq<Area>,
}

impl View for Filters {
    type V = FiltersModel;

    open spec fn view(&self) -> FiltersModel {
        FiltersModel {
            age_hours: self.age_hours,
            min_rooms: self.min_rooms,
            min_rent: self.min_rent,
            max_rent: self.max_rent,
            areas: self.areas@,
        }
    }
}

/// The filters a new search starts with: the last day, any size, any rent,
/// the whole city.
pub open spec fn default_filters() -> FiltersModel {
    FiltersModel { age_hours: 24, min_rooms: 0, min_rent: None, max_rent: None, areas: Seq::empty() }
}

impl Default for Filters {
    fn default() -> (r: Self)
        ensures
            r@ == default_filters(),
    {
        Filters { age_hours: 24, min_rooms: 0, min_rent: None, max_rent: None, areas: Vec::new() }
    }
}

/// The selected areas, in display order.
pub open spec fn selected_upto(areas: Seq<Area>, n: int) -> Seq<Area>
    decreases n,
{
    if n <= 0 {
        Seq::empty()
    } else {
        let a = areas_in_order()[n - 1];
        if areas.contains(a) {
            selected_upto(areas, n - 1).push(a)
        } else {
            selected_upto(areas, n - 1)
        }
    }
}

/// The selected areas, in display order.
pub open spec fn selected_areas(areas: Seq<Area>) -> Seq<Area> {
    selected_upto(areas, AREA_COUNT as int)
}

/// The `areaIdentifier` values a search sends: the selected areas' slugs in
/// display order, or the whole city when nothing is selected.
pub open spec fn area_slugs_spec(areas: Seq<Area>) -> Seq<Seq<char>> {
    if areas.len() == 0 {
        seq![ALL_STOCKHOLM@]
    } else {
        selected_areas(areas).map_values(|a: Area| area_slug(a))
    }
}

/// The area summary shown on buttons and messages.
pub open spec fn area_summary_spec(areas: Seq<Area>) -> Seq<char> {
    summary_of(selected_areas(areas).map_values(|a: Area| area_label(a)), "All Stockholm"@)
}

/// Does the selection hold `a`?
pub fn contains_area(v: &Vec<Area>, a: Area) -> (b: bool)
    ensures
        b == v@.contains(a),
{
    let mut i: usize = 0;
    while i < v.len()
        invariant
            i <= v.len(),
            forall|k: int| 0 <= k < i ==> v@[k] != a,
        decreases v.len() - i,
    {
        if v[i] == a {
            return true;
        }
        i = i + 1;
    }
    false
}

/// The selected areas, in display order.
fn selected_exec(areas: &Vec<Area>) -> (r: Vec<Area>)
    ensures
        r@ == selected_areas(areas@),
{
    let mut r: Vec<Area> = Vec::new();
    let mut i: usize = 0;
    while i < AREA_COUNT
        invariant
            i <= AREA_COUNT,
            r@ == selected_upto(areas@, i as int),
        decreases AREA_COUNT - i,
    {
        let a = match Area::from_index(i) {
            Some(a) => a,
            None => {
                assert(false);
                Area::Sodermalm
            },
        };
        if contains_area(areas, a) {
            r.push(a);
        }
        i = i + 1;
    }
    r
}

impl Filters {
    /// `areaIdentifier` values for the query — selected areas, or the whole
    /// city.
    pub fn area_slugs(&self) -> (r: Vec<&'static str>)
        ensures
            r@.map_values(|s: &'static str| s@) == area_slugs_spec(self.areas@),
    {
        let mut r: Vec<&'static str> = Vec::new();
        if self.areas.len() == 0 {
            r.push(ALL_STOCKHOLM);
            assert(r@.map_values(|s: &'static str| s@) =~= seq![ALL_STOCKHOLM@]);
            return r;
        }
        let sel = selected_exec(&self.areas);
        let mut i: usize = 0;
        while i < sel.len()
            invariant
                i <= sel.len(),
                r@.len() == i,
                forall|k: int| 0 <= k < i ==> (#[trigger] r@[k])@ == area_slug(sel@[k]),
            decreases sel.len() - i,
        {
            r.push(sel[i].slug());
            i = i + 1;
        }
        assert(r@.map_values(|s: &'static str| s@) =~= sel@.map_values(|a: Area| area_slug(a)));
        r
    }

    /// Short human-readable area summary for labels/messages.
    pub fn area_summary(&self) -> (r: String)
        ensures
            r@ == area_summary_spec(self.areas@),
    {
        let sel = selected_exec(&self.areas);
        let mut names: Vec<&'static str> = Vec::new();
        let mut i: usize = 0;
        while i < sel.len()
            invariant
                i <= sel.len(),
                names@.len() == i,
                forall|k: int| 0 <= k < i ==> (#[trigger] names@[k])@ == area_label(sel@[k]),
            decreases sel.len() - i,
        {
            names.push(sel[i].label());
            i = i + 1;
        }
        assert(names@.map_values(|n: &'static str| n@) =~= sel@.map_values(|a: Area| area_label(a)));
        summary_text(&names, "All Stockholm")
    }

    /// Selects `area` if it is not selected, else deselects it.
    pub fn toggle_area(&mut self, area: Area)
        ensures
            final(self)@ == (FiltersModel { areas: toggled(old(self)@.areas, area), ..old(self)@ }),
    {
        let mut i: usize = 0;
        while i < self.areas.len()
            invariant
                i <= self.areas.len(),
                self.areas@ == old(self).areas@,
                self@ == old(self)@,
                first_index_from(self.areas@, area, 0) == first_index_from(self.areas@, area, i as int),
            decreases self.areas.len() - i,
        {
            if self.areas[i] == area {
                self.areas.remove(i);
                return;
            }
            i = i + 1;
        }
        self.areas.push(area);
    }
}


// ---------------------------------------------------------------------------
// Screens and button presses
// ---------------------------------------------------------------------------

/// Which screen to display.
#[derive(Clone, Copy, Debug, PartialEq, Eq, Structural)]
pub enum Screen {
    Main,
    Age,
    Rooms,
    MinRent,
    MaxRent,
    Area,
}

/// What the caller should do after a button press.
#[derive(Clone, Copy, Debug, PartialEq, Eq, Structural)]
pub enum Action {
    /// Redraw the given screen.
    Show(Screen),
    /// Run the search with the current filters.
    Search,
    /// Unrecognized/no-op.
    Ignore,
}

/// Max-age presets, in hours.
pub open spec fn is_age_preset(h: int) -> bool {
    h == 3 || h == 6 || h == 12 || h == 24 || h == 48 || h == 72 || h == 168
}

/// A rent setting: a positive amount, or `None` for "any".
pub open spec fn rent_setting(v: i64) -> Option<i64> {
    if v > 0 {
        Some(v)
    } else {
        None
    }
}

/// What a `key:value` button press does to the filters, and what comes next.
pub open spec fn apply_key_value(f: FiltersModel, key: Seq<char>, val: Seq<char>) -> (FiltersModel, Action) {
    if key == "age"@ {
        let g = match parse_i64(val) {
            Some(h) => if is_age_preset(h as int) {
                FiltersModel { age_hours: h, ..f }
            } else {
                f
            },
            None => f,
        };
        (g, Action::Show(Screen::Main))
    } else if key == "rooms"@ {
        let g = match parse_unsigned(val, u8::MAX as nat) {
            Some(r) => if r <= 5 {
                FiltersModel { min_rooms: r as u8, ..f }
            } else {
                f
            },
            None => f,
        };
        (g, Action::Show(Screen::Main))
    } else if key == "minrent"@ {
        let g = match parse_i64(val) {
            Some(v) => FiltersModel { min_rent: rent_setting(v), ..f },
            None => f,
        };
        (g, Action::Show(Screen::Main))
    } else if key == "maxrent"@ {
        let g = match parse_i64(val) {
            Some(v) => FiltersModel { max_rent: rent_setting(v), ..f },
            None => f,
        };
        (g, Action::Show(Screen::Main))
    } else if key == "area"@ {
        let g = match parse_unsigned(val, usize::MAX as nat) {
            Some(i) => match area_at(i as int) {
                Some(a) => FiltersModel { areas: toggled(f.areas, a), ..f },
                None => f,
            },
            None => f,
        };
        (g, Action::Show(Screen::Area))
    } else {
        (f, Action::Ignore)
    }
}

/// What a button press (its callback data) does to the filters, and what
/// comes next.
pub open spec fn apply_spec(f: FiltersModel, data: Seq<char>) -> (FiltersModel, Action) {
    if data == "go"@ {
        (f, Action::Search)
    } else if data == "back"@ {
        (f, Action::Show(Screen::Main))
    } else if data == "menu:age"@ {
        (f, Action::Show(Screen::Age))
    } else if data == "menu:rooms"@ {
        (f, Action::Show(Screen::Rooms))
    } else if data == "menu:minrent"@ {
        (f, Action::Show(Screen::MinRent))
    } else if data == "menu:maxrent"@ {
        (f, Action::Show(Screen::MaxRent))
    } else if data == "menu:area"@ {
        (f, Action::Show(Screen::Area))
    } else if data == "areaclear"@ {
        (FiltersModel { areas: Seq::empty(), ..f }, Action::Show(Screen::Area))
    } else {
        match index_of(data, ':') {
            Some(i) => apply_key_value(f, data.take(i), data.skip(i + 1)),
            None => (f, Action::Ignore),
        }
    }
}

fn apply_key_value_exec(filters: &mut Filters, d: &Vec<char>, colon: usize) -> (r: Action)
    requires
        colon < d.len(),
    ensures
        (final(filters)@, r) == apply_key_value(
            old(filters)@,
            d@.subrange(0, colon as int),
            d@.subrange(colon + 1, d.len() as int),
        ),
{
    let n = d.len();
    let v = colon + 1;
    if range_is(d, 0, colon, "age") {
        if let Some(h) = parse_i64_range(d, v, n) {
            if h == 3 || h == 6 || h == 12 || h == 24 || h == 48 || h == 72 || h == 168 {
                filters.age_hours = h;
            }
        }
        Action::Show(Screen::Main)
    } else if range_is(d, 0, colon, "rooms") {
        if let Some(r) = parse_unsigned_range(d, v, n, 255) {
            if r <= 5 {
                filters.min_rooms = r as u8;
            }
        }
        Action::Show(Screen::Main)
    } else if range_is(d, 0, colon, "minrent") {
        if let Some(x) = parse_i64_range(d, v, n) {
            filters.min_rent = if x > 0 { Some(x) } else { None };
        }
        Action::Show(Screen::Main)
    } else if range_is(d, 0, colon, "maxrent") {
        if let Some(x) = parse_i64_range(d, v, n) {
            filters.max_rent = if x > 0 { Some(x) } else { None };
        }
        Action::Show(Screen::Main)
    } else if range_is(d, 0, colon, "area") {
        if let Some(i) = parse_unsigned_range(d, v, n, usize::MAX as u64) {
            if let Some(a) = Area::from_index(i as usize) {
                filters.toggle_area(a);
            }
        }
        Action::Show(Screen::Area)
    } else {
        Action::Ignore
    }
}

/// Applies a button press (its callback data) to the filters, returning the
/// next step.
pub fn apply(filters: &mut Filters, data: &str) -> (r: Action)
    ensures
        (final(filters)@, r) == apply_spec(old(filters)@, data@),
{
    let d = chars_of(data);
    let n = d.len();
    proof {
        assert(d@.subrange(0, n as int) == data@);
    }
    if range_is(&d, 0, n, "go") {
        return Action::Search;
    } else if range_is(&d, 0, n, "back") {
        return Action::Show(Screen::Main);
    } else if range_is(&d, 0, n, "menu:age") {
        return Action::Show(Screen::Age);
    } else if range_is(&d, 0, n, "menu:rooms") {
        return Action::Show(Screen::Rooms);
    } else if range_is(&d, 0, n, "menu:minrent") {
        return Action::Show(Screen::MinRent);
    } else if range_is(&d, 0, n, "menu:maxrent") {
        return Action::Show(Screen::MaxRent);
    } else if range_is(&d, 0, n, "menu:area") {
        return Action::Show(Screen::Area);
    } else if range_is(&d, 0, n, "areaclear") {
        filters.areas.clear();
        return Action::Show(Screen::Area);
    }
    match index_of_in(&d, ':', 0, n) {
        None => Action::Ignore,
        Some(colon) => {
            proof {
                assert(data@.take(colon as int) == d@.subrange(0, colon as int));
                assert(data@.skip(colon + 1) == d@.subrange(colon + 1, n as int));
            }
            apply_key_value_exec(filters, &d, colon)
        },
    }
}


/// Starting a search and unrecognised presses leave the filters as they were.
pub proof fn lemma_apply_search_or_ignore_keeps_filters(f: FiltersModel, data: Seq<char>)
    ensures
        (apply_spec(f, data).1 is Search || apply_spec(f, data).1 is Ignore) ==> apply_spec(f, data).0
            == f,
{
}

/// Every press keeps the area selection free of duplicates.
pub proof fn lemma_apply_keeps_areas_distinct(f: FiltersModel, data: Seq<char>)
    requires
        f.areas.no_duplicates(),
    ensures
        apply_spec(f, data).0.areas.no_duplicates(),
{
    match index_of(data, ':') {
        Some(i) => {
            let val = data.skip(i + 1);
            match parse_unsigned(val, usize::MAX as nat) {
                Some(k) => match area_at(k as int) {
                    Some(a) => lemma_toggle(f.areas, a),
                    None => {},
                },
                None => {},
            }
        },
        None => {},
    }
    assert(Seq::<Area>::empty().no_duplicates());
}

/// The callback data of the button for the area at position `i`.
pub open spec fn area_button_data(i: nat) -> Seq<char> {
    "area:"@ + dec_nat(i)
}

/// Pressing an area button selects that area if it was not selected and
/// deselects it if it was, leaves every other filter as it was, and keeps
/// the area screen open; pressing it again restores the selection.
pub proof fn lemma_area_button_twice(f: FiltersModel, i: nat)
    requires
        f.areas.no_duplicates(),
        i < AREA_COUNT,
    ensures
        ({
            let d = area_button_data(i);
            let a = areas_in_order()[i as int];
            let (g, act) = apply_spec(f, d);
            let (h, act2) = apply_spec(g, d);
            &&& act == Action::Show(Screen::Area)
            &&& act2 == Action::Show(Screen::Area)
            &&& g == FiltersModel { areas: toggled(f.areas, a), ..f }
            &&& g.areas.contains(a) == !f.areas.contains(a)
            &&& forall|b: Area| b != a ==> g.areas.contains(b) == f.areas.contains(b)
            &&& h.areas.to_set() == f.areas.to_set()
            &&& h == FiltersModel { areas: h.areas, ..f }
        }),
{
    let d = area_button_data(i);
    let a = areas_in_order()[i as int];
    reveal_strlit("area:");
    reveal_strlit("go");
    reveal_strlit("back");
    reveal_strlit("menu:age");
    reveal_strlit("menu:rooms");
    reveal_strlit("menu:minrent");
    reveal_strlit("menu:maxrent");
    reveal_strlit("menu:area");
    reveal_strlit("areaclear");
    reveal_strlit("area");
    lemma_dec_nat_parses(i);
    let digits = dec_nat(i);
    assert(digits.len() <= 2) by {
        if i >= 10 {
            assert(dec_nat(i / 10).len() == 1);
        }
    }
    assert(d.len() == 5 + digits.len());
    assert(d[4] == ':');
    assert forall|m: int| 0 <= m < 4 implies d[m] != ':' by {
        assert(d[m] == "area:"@[m]);
    }
    crate::text::lemma_index_of_first(d, ':', 4);
    assert(d.take(4) =~= "area"@);
    assert(d.skip(5) =~= digits);
    assert(is_ascii_digit(digits[0]));
    assert(parse_unsigned(digits, usize::MAX as nat) == Some(i));
    assert(area_at(i as int) == Some(a));
    lemma_apply_area(f, d, a);
    let g = FiltersModel { areas: toggled(f.areas, a), ..f };
    lemma_apply_area(g, d, a);
    lemma_toggle_twice(f.areas, a);
}

/// An `area:` press whose index names `a` toggles `a`.
proof fn lemma_apply_area(f: FiltersModel, d: Seq<char>, a: Area)
    requires
        d.len() >= 6 && d.len() <= 7,
        index_of(d, ':') == Some(4int),
        d.take(4) == "area"@,
        (match parse_unsigned(d.skip(5), usize::MAX as nat) {
            Some(k) => area_at(k as int) == Some(a),
            None => false,
        }),
    ensures
        apply_spec(f, d) == (FiltersModel { areas: toggled(f.areas, a), ..f }, Action::Show(Screen::Area)),
{
    reveal_strlit("go");
    reveal_strlit("back");
    reveal_strlit("menu:age");
    reveal_strlit("menu:rooms");
    reveal_strlit("menu:minrent");
    reveal_strlit("menu:maxrent");
    reveal_strlit("menu:area");
    reveal_strlit("areaclear");
    reveal_strlit("area");
    reveal_strlit("age");
    reveal_strlit("rooms");
    reveal_strlit("minrent");
    reveal_strlit("maxrent");
    assert(d != "go"@ && d != "back"@ && d != "menu:age"@ && d != "menu:rooms"@);
    assert(d != "menu:minrent"@ && d != "menu:maxrent"@ && d != "menu:area"@ && d != "areaclear"@);
    let key = d.take(4);
    assert(key.len() == 4);
    assert("age"@.len() == 3);
    assert("rooms"@.len() == 5);
    assert("minrent"@.len() == 7);
    assert("maxrent"@.len() == 7);
    assert(key != "age"@ && key != "rooms"@ && key != "minrent"@ && key != "maxrent"@);
}


// ---------------------------------------------------------------------------
// Client-side filtering
// ---------------------------------------------------------------------------

/// Does a fetched listing pass the client-side (room/rent) filters? A filter
/// that is set excludes listings whose value is unknown.
pub open spec fn passes_spec(f: FiltersModel, h: &Home) -> bool {
    &&& (f.min_rooms > 0 ==> match h.room_count_tenths {
        Some(r) => r >= f.min_rooms * 10,
        None => false,
    })
    &&& (match f.min_rent {
        Some(min) => match h.rent {
            Some(r) => r >= min,
            None => false,
        },
        None => true,
    })
    &&& (match f.max_rent {
        Some(max) => match h.rent {
            Some(r) => r <= max,
            None => false,
        },
        None => true,
    })
}

/// Does a fetched listing pass the client-side (room/rent) filters?
/// Age and areas are already applied by the API query.
pub fn passes(filters: &Filters, home: &Home) -> (r: bool)
    ensures
        r == passes_spec(filters@, home),
{
    if filters.min_rooms > 0 {
        match home.room_count_tenths {
            Some(r) => {
                if r < (filters.min_rooms as i64) * 10 {
                    return false;
                }
            },
            None => return false,
        }
    }
    if let Some(min) = filters.min_rent {
        match home.rent {
            Some(rent) => {
                if rent < min {
                    return false;
                }
            },
            None => return false,
        }
    }
    if let Some(max) = filters.max_rent {
        match home.rent {
            Some(rent) => {
                if rent > max {
                    return false;
                }
            },
            None => return false,
        }
    }
    true
}

// ---------------------------------------------------------------------------
// Texts
// ---------------------------------------------------------------------------

/// Integer division rounding toward zero, as Rust's `/` does.
pub open spec fn trunc_div(v: int, d: int) -> int {
    if v >= 0 {
        v / d
    } else {
        -((-v) / d)
    }
}

/// The minimum-rooms setting as text: `any`, or `N+`.
pub open spec fn rooms_text_spec(min_rooms: u8) -> Seq<char> {
    if min_rooms == 0 {
        "any"@
    } else {
        dec_nat(min_rooms as nat) + "+"@
    }
}

/// A rent setting as text: `any`, or thousands of SEK with a `k`.
pub open spec fn rent_text_spec(rent: Option<i64>) -> Seq<char> {
    match rent {
        None => "any"@,
        Some(v) => dec_int(trunc_div(v as int, 1000)) + "k"@,
    }
}

/// The minimum room count as text: `any`, or the count and a plus.
pub fn rooms_text(min_rooms: u8) -> (r: String)
    ensures
        r@ == rooms_text_spec(min_rooms),
{
    if min_rooms == 0 {
        String::from_str("any")
    } else {
        let mut r = String::new();
        push_dec_u64(&mut r, min_rooms as u64);
        r.append("+");
        r
    }
}

/// Thousands of `v`, rounded toward zero.
pub fn thousands(v: i64) -> (r: i64)
    ensures
        r == trunc_div(v as int, 1000),
{
    if v >= 0 {
        v / 1000
    } else {
        let m: i128 = 0i128 - (v as i128);
        (0i128 - m / 1000) as i64
    }
}

/// A rent bound as text: `any`, or whole thousands and `k`.
pub fn rent_text(rent: Option<i64>) -> (r: String)
    ensures
        r@ == rent_text_spec(rent),
{
    match rent {
        None => String::from_str("any"),
        Some(v) => {
            let mut r = String::new();
            push_dec_i64(&mut r, thousands(v));
            r.append("k");
            r
        },
    }
}

/// The multi-line summary of the active filters.
pub open spec fn describe_spec(f: FiltersModel) -> Seq<char> {
    "📍 Area: "@ + area_summary_spec(f.areas) + "\n⏱ Published: last "@ + dec_int(f.age_hours as int)
        + "h\n🛏 Rooms: "@ + rooms_text_spec(f.min_rooms) + "\n💰 Rent: "@ + rent_text_spec(f.min_rent)
        + "–"@ + rent_text_spec(f.max_rent)
}

/// A multi-line summary of the active filters, for the "Searching…" message.
pub fn describe(f: &Filters) -> (r: String)
    ensures
        r@ == describe_spec(f@),
{
    let mut r = String::new();
    r.append("📍 Area: ");
    r.append(f.area_summary().as_str());
    r.append("\n⏱ Published: last ");
    push_dec_i64(&mut r, f.age_hours);
    r.append("h\n🛏 Rooms: ");
    r.append(rooms_text(f.min_rooms).as_str());
    r.append("\n💰 Rent: ");
    r.append(rent_text(f.min_rent).as_str());
    r.append("–");
    r.append(rent_text(f.max_rent).as_str());
    r
}

/// The text of the main screen.
pub open spec fn main_text_spec(f: FiltersModel) -> Seq<char> {
    "🔍 Search Stockholm rentals\n\n⏱ Age: last "@ + dec_int(f.age_hours as int) + "h\n🛏 Rooms: "@
        + rooms_text_spec(f.min_rooms) + "\n💰 Rent: "@ + rent_text_spec(f.min_rent) + "–"@
        + rent_text_spec(f.max_rent) + "\n📍 Area: "@ + area_summary_spec(f.areas)
        + "\n\nTap a field to change it, then Search."@
}

/// The text of the main screen.
pub fn main_text(f: &Filters) -> (r: String)
    ensures
        r@ == main_text_spec(f@),
{
    let mut r = String::new();
    r.append("🔍 Search Stockholm rentals\n\n⏱ Age: last ");
    push_dec_i64(&mut r, f.age_hours);
    r.append("h\n🛏 Rooms: ");
    r.append(rooms_text(f.min_rooms).as_str());
    r.append("\n💰 Rent: ");
    r.append(rent_text(f.min_rent).as_str());
    r.append("–");
    r.append(rent_text(f.max_rent).as_str());
    r.append("\n📍 Area: ");
    r.append(f.area_summary().as_str());
    r.append("\n\nTap a field to change it, then Search.");
    r
}


// ---------------------------------------------------------------------------
// Keyboards
// ---------------------------------------------------------------------------

/// An inline keyboard button: its label and the callback data it sends.
pub struct Button {
    pub text: String,
    pub callback_data: String,
}

/// An inline keyboard: rows of buttons.
pub struct Keyboard {
    pub rows: Vec<Vec<Button>>,
}

/// A button as its label and callback data.
pub open spec fn button_view(b: Button) -> (Seq<char>, Seq<char>) {
    (b.text@, b.callback_data@)
}

/// A row of buttons as labels and callback data.
pub open spec fn row_view(r: Vec<Button>) -> Seq<(Seq<char>, Seq<char>)> {
    r@.map_values(|b: Button| button_view(b))
}

impl View for Keyboard {
    type V = Seq<Seq<(Seq<char>, Seq<char>)>>;

    open spec fn view(&self) -> Seq<Seq<(Seq<char>, Seq<char>)>> {
        self.rows@.map_values(|r: Vec<Button>| row_view(r))
    }
}

/// `s` cut into rows of `n` (the last row may be shorter).
pub open spec fn chunks<T>(s: Seq<T>, n: nat) -> Seq<Seq<T>>
    decreases s.len(),
{
    if s.len() == 0 || n == 0 {
        Seq::empty()
    } else if s.len() <= n {
        seq![s]
    } else {
        seq![s.take(n as int)] + chunks(s.skip(n as int), n)
    }
}

/// A button with the given label and callback data.
pub fn button(text: String, data: &str) -> (b: Button)
    ensures
        button_view(b) == (text@, data@),
{
    Button { text, callback_data: String::from_str(data) }
}

/// The label of an option, with a leading dot when it is the selected one.
pub open spec fn mark_spec(selected: bool, text: Seq<char>) -> Seq<char> {
    if selected {
        "• "@ + text
    } else {
        text
    }
}

/// Marks the selected option with a leading dot.
pub fn mark(selected: bool, text: &str) -> (r: String)
    ensures
        r@ == mark_spec(selected, text@),
{
    if selected {
        let mut r = String::from_str("• ");
        r.append(text);
        r
    } else {
        String::from_str(text)
    }
}

/// The Back row under a menu.
pub open spec fn back_row() -> Seq<(Seq<char>, Seq<char>)> {
    seq![("⬅ Back"@, "back"@)]
}

/// A menu: the buttons laid out `per_row` wide, then a Back row.
pub open spec fn menu_spec(buttons: Seq<(Seq<char>, Seq<char>)>, per_row: nat) -> Seq<Seq<(Seq<char>, Seq<char>)>> {
    chunks(buttons, per_row).push(back_row())
}

/// The buttons of a vector, as labels and callback data.
pub open spec fn buttons_view(v: Seq<Button>) -> Seq<(Seq<char>, Seq<char>)> {
    v.map_values(|b: Button| button_view(b))
}

/// Cuts buttons into rows of `per_row`.
pub fn chunk_rows(buttons: Vec<Button>, per_row: usize) -> (rows: Vec<Vec<Button>>)
    requires
        per_row > 0,
    ensures
        rows@.map_values(|r: Vec<Button>| row_view(r)) == chunks(buttons_view(buttons@), per_row as nat),
{
    let mut rows: Vec<Vec<Button>> = Vec::new();
    let mut rest = buttons;
    let ghost all = buttons_view(buttons@);
    while rest.len() > 0
        invariant
            per_row > 0,
            chunks(all, per_row as nat) == rows@.map_values(|r: Vec<Button>| row_view(r)) + chunks(
                buttons_view(rest@),
                per_row as nat,
            ),
        decreases rest.len(),
    {
        let ghost before_rows = rows@;
        let ghost rv = buttons_view(rest@);
        if rest.len() <= per_row {
            let row = rest;
            rest = Vec::new();
            rows.push(row);
            proof {
                assert(chunks(rv, per_row as nat) == seq![rv]);
                assert(row_view(row) == rv);
                assert(chunks(buttons_view(rest@), per_row as nat) =~= Seq::<Seq<(Seq<char>, Seq<char>)>>::empty());
                assert(rows@.map_values(|r: Vec<Button>| row_view(r)) =~= before_rows.map_values(|r: Vec<Button>| row_view(r)).push(rv));
            }
        } else {
            let tail = rest.split_off(per_row);
            let row = rest;
            rest = tail;
            rows.push(row);
            proof {
                assert(row_view(row) =~= rv.take(per_row as int));
                assert(buttons_view(rest@) =~= rv.skip(per_row as int));
                assert(rows@.map_values(|r: Vec<Button>| row_view(r)) =~= before_rows.map_values(|r: Vec<Button>| row_view(r)).push(rv.take(per_row as int)));
            }
        }
    }
    proof {
        assert(chunks(buttons_view(rest@), per_row as nat) =~= Seq::<Seq<(Seq<char>, Seq<char>)>>::empty());
    }
    rows
}

/// Lays buttons out `per_row` wide and appends a Back row.
pub fn menu(buttons: Vec<Button>, per_row: usize) -> (k: Keyboard)
    requires
        per_row > 0,
    ensures
        k@ == menu_spec(buttons_view(buttons@), per_row as nat),
{
    let mut rows = chunk_rows(buttons, per_row);
    let ghost before = rows@;
    let mut back: Vec<Button> = Vec::new();
    back.push(button(String::from_str("⬅ Back"), "back"));
    rows.push(back);
    proof {
        assert(row_view(back) =~= back_row());
        assert(rows@.map_values(|r: Vec<Button>| row_view(r)) =~= before.map_values(|r: Vec<Button>| row_view(r)).push(back_row()));
    }
    Keyboard { rows }
}

/// Max-age presets, in hours.
pub open spec fn ages() -> Seq<i64> {
    seq![3, 6, 12, 24, 48, 72, 168]
}

fn ages_exec() -> (v: Vec<i64>)
    ensures
        v@ == ages(),
{
    let v: Vec<i64> = vec![3, 6, 12, 24, 48, 72, 168];
    assert(v@ =~= ages());
    v
}


/// Appends a button.
pub fn push_button(v: &mut Vec<Button>, b: Button)
    ensures
        buttons_view(final(v)@) == buttons_view(old(v)@).push(button_view(b)),
{
    let ghost before = v@;
    v.push(b);
    proof {
        assert(buttons_view(v@) =~= buttons_view(before).push(button_view(b))) by {
            assert forall|k: int| 0 <= k < before.len() implies buttons_view(v@)[k] == buttons_view(before)[k] by {
                assert(v@[k] == before[k]);
            }
        }
    }
}

/// A row of one button.
fn single_row(text: String, data: &str) -> (r: Vec<Button>)
    ensures
        row_view(r) == seq![(text@, data@)],
{
    let mut r: Vec<Button> = Vec::new();
    push_button(&mut r, button(text, data));
    assert(row_view(r) =~= buttons_view(r@));
    r
}

/// Appends a row.
pub fn push_row(rows: &mut Vec<Vec<Button>>, row: Vec<Button>)
    ensures
        final(rows)@.map_values(|r: Vec<Button>| row_view(r)) == old(rows)@.map_values(|r: Vec<Button>| row_view(r)).push(row_view(row)),
{
    let ghost before = rows@;
    rows.push(row);
    proof {
        assert(rows@.map_values(|r: Vec<Button>| row_view(r)) =~= before.map_values(|r: Vec<Button>| row_view(r)).push(row_view(row))) by {
            assert forall|k: int| 0 <= k < before.len() implies #[trigger] rows@[k] == before[k] by {
            }
        }
    }
}

/// The main screen's keyboard: one button per filter, then Search.
pub open spec fn main_keyboard_spec(f: FiltersModel) -> Seq<Seq<(Seq<char>, Seq<char>)>> {
    seq![
        seq![("⏱ Age: "@ + dec_int(f.age_hours as int) + "h"@, "menu:age"@)],
        seq![("🛏 Rooms: "@ + rooms_text_spec(f.min_rooms), "menu:rooms"@)],
        seq![("💰 Min rent: "@ + rent_text_spec(f.min_rent), "menu:minrent"@)],
        seq![("💰 Max rent: "@ + rent_text_spec(f.max_rent), "menu:maxrent"@)],
        seq![("📍 Areas: "@ + area_summary_spec(f.areas), "menu:area"@)],
        seq![("🔎 Search"@, "go"@)],
    ]
}

/// The main screen: one button per filter, then Search.
pub fn main_keyboard(f: &Filters) -> (k: Keyboard)
    ensures
        k@ == main_keyboard_spec(f@),
{
    let mut rows: Vec<Vec<Button>> = Vec::new();
    let mut t = String::from_str("⏱ Age: ");
    push_dec_i64(&mut t, f.age_hours);
    t.append("h");
    push_row(&mut rows, single_row(t, "menu:age"));
    let mut t = String::from_str("🛏 Rooms: ");
    t.append(rooms_text(f.min_rooms).as_str());
    push_row(&mut rows, single_row(t, "menu:rooms"));
    let mut t = String::from_str("💰 Min rent: ");
    t.append(rent_text(f.min_rent).as_str());
    push_row(&mut rows, single_row(t, "menu:minrent"));
    let mut t = String::from_str("💰 Max rent: ");
    t.append(rent_text(f.max_rent).as_str());
    push_row(&mut rows, single_row(t, "menu:maxrent"));
    let mut t = String::from_str("📍 Areas: ");
    t.append(f.area_summary().as_str());
    push_row(&mut rows, single_row(t, "menu:area"));
    push_row(&mut rows, single_row(String::from_str("🔎 Search"), "go"));
    let k = Keyboard { rows };
    assert(k@ =~= main_keyboard_spec(f@));
    k
}

/// The button for a max-age preset.
pub open spec fn age_button(f: FiltersModel, h: i64) -> (Seq<char>, Seq<char>) {
    (mark_spec(f.age_hours == h, dec_int(h as int) + "h"@), "age:"@ + dec_int(h as int))
}

/// The age menu: the presets, four wide, the selected one marked.
pub open spec fn age_keyboard_spec(f: FiltersModel) -> Seq<Seq<(Seq<char>, Seq<char>)>> {
    menu_spec(ages().map_values(|h: i64| age_button(f, h)), 4)
}

/// The max-age menu.
pub fn age_keyboard(f: &Filters) -> (k: Keyboard)
    ensures
        k@ == age_keyboard_spec(f@),
{
    let presets = ages_exec();
    let mut buttons: Vec<Button> = Vec::new();
    let mut i: usize = 0;
    while i < presets.len()
        invariant
            i <= presets.len(),
            presets@ == ages(),
            buttons_view(buttons@) == ages().take(i as int).map_values(|h: i64| age_button(f@, h)),
        decreases presets.len() - i,
    {
        let h = presets[i];
        let mut label = String::new();
        push_dec_i64(&mut label, h);
        label.append("h");
        let mut data = String::from_str("age:");
        push_dec_i64(&mut data, h);
        push_button(&mut buttons, button(mark(f.age_hours == h, label.as_str()), data.as_str()));
        proof {
            assert(ages().take(i + 1).map_values(|h: i64| age_button(f@, h)) =~= ages().take(i as int).map_values(|h: i64| age_button(f@, h)).push(age_button(f@, h)));
        }
        i = i + 1;
    }
    assert(ages().take(7) =~= ages());
    menu(buttons, 4)
}

/// The label of a minimum-rooms preset.
pub open spec fn rooms_label(r: nat) -> Seq<char> {
    if r == 0 {
        "Any"@
    } else {
        dec_nat(r) + "+"@
    }
}

/// The button for a minimum-rooms preset (0 to 5).
pub open spec fn room_button(min_rooms: u8, r: nat) -> (Seq<char>, Seq<char>) {
    (mark_spec(min_rooms == r, rooms_label(r)), "rooms:"@ + dec_nat(r))
}

/// The minimum-rooms buttons: presets 0 ("any") to 5.
pub open spec fn room_buttons(min_rooms: u8) -> Seq<(Seq<char>, Seq<char>)> {
    Seq::new(6, |i: int| room_button(min_rooms, i as nat))
}

/// The minimum-rooms menu.
pub open spec fn rooms_keyboard_spec(f: FiltersModel) -> Seq<Seq<(Seq<char>, Seq<char>)>> {
    menu_spec(room_buttons(f.min_rooms), 3)
}

/// The minimum-rooms buttons.
pub fn room_buttons_exec(min_rooms: u8) -> (v: Vec<Button>)
    ensures
        buttons_view(v@) == room_buttons(min_rooms),
{
    let mut buttons: Vec<Button> = Vec::new();
    let mut r: u64 = 0;
    while r < 6
        invariant
            r <= 6,
            buttons_view(buttons@) == room_buttons(min_rooms).take(r as int),
        decreases 6 - r,
    {
        let label = if r == 0 {
            String::from_str("Any")
        } else {
            let mut l = String::new();
            push_dec_u64(&mut l, r);
            l.append("+");
            l
        };
        let mut data = String::from_str("rooms:");
        push_dec_u64(&mut data, r);
        push_button(&mut buttons, button(mark(min_rooms as u64 == r, label.as_str()), data.as_str()));
        proof {
            assert(room_buttons(min_rooms).take(r + 1) =~= room_buttons(min_rooms).take(r as int).push(room_button(min_rooms, r as nat)));
        }
        r = r + 1;
    }
    assert(room_buttons(min_rooms).take(6) =~= room_buttons(min_rooms));
    buttons
}

/// The minimum-rooms menu.
pub fn rooms_keyboard(f: &Filters) -> (k: Keyboard)
    ensures
        k@ == rooms_keyboard_spec(f@),
{
    menu(room_buttons_exec(f.min_rooms), 3)
}

/// Rent presets in SEK; `0` means "any". Shared by the min and max menus.
pub open spec fn rents() -> Seq<i64> {
    seq![0, 6_000, 8_000, 10_000, 12_000, 15_000, 18_000, 20_000, 25_000, 30_000, 40_000]
}

fn rents_exec() -> (v: Vec<i64>)
    ensures
        v@ == rents(),
{
    let v: Vec<i64> = vec![0, 6_000, 8_000, 10_000, 12_000, 15_000, 18_000, 20_000, 25_000, 30_000, 40_000];
    assert(v@ =~= rents());
    v
}

/// The button for a rent preset under a `minrent`/`maxrent` prefix.
pub open spec fn rent_button(selected: Option<i64>, prefix: Seq<char>, v: i64) -> (Seq<char>, Seq<char>) {
    let label = if v == 0 {
        "Any"@
    } else {
        dec_int(trunc_div(v as int, 1000)) + "k"@
    };
    let current = match selected {
        Some(x) => x,
        None => 0,
    };
    (mark_spec(current == v, label), prefix + ":"@ + dec_int(v as int))
}

/// A rent menu over the given presets.
pub open spec fn rent_keyboard_spec(presets: Seq<i64>, selected: Option<i64>, prefix: Seq<char>) -> Seq<Seq<(Seq<char>, Seq<char>)>> {
    menu_spec(presets.map_values(|v: i64| rent_button(selected, prefix, v)), 3)
}

/// Shared renderer for the min/max rent menus over the given presets.
/// `prefix` is `minrent`/`maxrent`.
pub fn rent_menu(presets: Vec<i64>, selected: Option<i64>, prefix: &str) -> (k: Keyboard)
    ensures
        k@ == rent_keyboard_spec(presets@, selected, prefix@),
{
    let current = match selected {
        Some(x) => x,
        None => 0,
    };
    let mut buttons: Vec<Button> = Vec::new();
    let mut i: usize = 0;
    while i < presets.len()
        invariant
            i <= presets.len(),
            buttons_view(buttons@) == presets@.take(i as int).map_values(|v: i64| rent_button(selected, prefix@, v)),
            current == (match selected {
                Some(x) => x,
                None => 0,
            }),
        decreases presets.len() - i,
    {
        let v = presets[i];
        let label = if v == 0 {
            String::from_str("Any")
        } else {
            let mut l = String::new();
            push_dec_i64(&mut l, thousands(v));
            l.append("k");
            l
        };
        let mut data = String::from_str(prefix);
        data.append(":");
        push_dec_i64(&mut data, v);
        push_button(&mut buttons, button(mark(current == v, label.as_str()), data.as_str()));
        proof {
            assert(presets@.take(i + 1).map_values(|v: i64| rent_button(selected, prefix@, v)) =~= presets@.take(i as int).map_values(|v: i64| rent_button(selected, prefix@, v)).push(rent_button(selected, prefix@, v)));
        }
        i = i + 1;
    }
    assert(presets@.take(presets.len() as int) =~= presets@);
    menu(buttons, 3)
}

/// Shared renderer for the min/max rent menus. `prefix` is
/// `minrent`/`maxrent`.
pub fn rent_keyboard(selected: Option<i64>, prefix: &str) -> (k: Keyboard)
    ensures
        k@ == rent_keyboard_spec(rents(), selected, prefix@),
{
    rent_menu(rents_exec(), selected, prefix)
}

/// The button for the area at position `i`.
pub open spec fn area_button(areas: Seq<Area>, i: int) -> (Seq<char>, Seq<char>) {
    let a = areas_in_order()[i];
    (mark_spec(areas.contains(a), area_label(a)), "area:"@ + dec_nat(i as nat))
}

/// The Clear / Done row under the area picker.
pub open spec fn area_controls_row() -> Seq<(Seq<char>, Seq<char>)> {
    seq![("🧹 Clear"@, "areaclear"@), ("✅ Done"@, "back"@)]
}

/// The area picker: a toggle grid, three wide, then Clear and Done.
pub open spec fn area_keyboard_spec(f: FiltersModel) -> Seq<Seq<(Seq<char>, Seq<char>)>> {
    chunks(Seq::new(AREA_COUNT as nat, |i: int| area_button(f.areas, i)), 3).push(area_controls_row())
}

/// Multi-select area picker: a toggle grid plus Clear / Done controls.
pub fn area_keyboard(f: &Filters) -> (k: Keyboard)
    ensures
        k@ == area_keyboard_spec(f@),
{
    let ghost all = Seq::new(AREA_COUNT as nat, |i: int| area_button(f@.areas, i));
    let mut buttons: Vec<Button> = Vec::new();
    let mut i: usize = 0;
    while i < AREA_COUNT
        invariant
            i <= AREA_COUNT,
            all == Seq::new(AREA_COUNT as nat, |i: int| area_button(f@.areas, i)),
            buttons_view(buttons@) == all.take(i as int),
        decreases AREA_COUNT - i,
    {
        let a = match Area::from_index(i) {
            Some(a) => a,
            None => {
                assert(false);
                Area::Sodermalm
            },
        };
        let mut data = String::from_str("area:");
        push_dec_u64(&mut data, i as u64);
        push_button(&mut buttons, button(mark(contains_area(&f.areas, a), a.label()), data.as_str()));
        proof {
            assert(all.take(i + 1) =~= all.take(i as int).push(area_button(f@.areas, i as int)));
        }
        i = i + 1;
    }
    assert(all.take(AREA_COUNT as int) =~= all);
    let mut rows = chunk_rows(buttons, 3);
    let mut controls: Vec<Button> = Vec::new();
    push_button(&mut controls, button(String::from_str("🧹 Clear"), "areaclear"));
    push_button(&mut controls, button(String::from_str("✅ Done"), "back"));
    assert(row_view(controls) =~= area_controls_row());
    push_row(&mut rows, controls);
    Keyboard { rows }
}

/// What a screen shows: its text and its keyboard.
pub open spec fn render_spec(screen: Screen, f: FiltersModel) -> (Seq<char>, Seq<Seq<(Seq<char>, Seq<char>)>>) {
    match screen {
        Screen::Main => (main_text_spec(f), main_keyboard_spec(f)),
        Screen::Age => ("⏱ Published within — pick a max age:"@, age_keyboard_spec(f)),
        Screen::Rooms => ("🛏 Minimum number of rooms:"@, rooms_keyboard_spec(f)),
        Screen::MinRent => ("💰 Minimum rent (SEK / month):"@, rent_keyboard_spec(rents(), f.min_rent, "minrent"@)),
        Screen::MaxRent => ("💰 Maximum rent (SEK / month):"@, rent_keyboard_spec(rents(), f.max_rent, "maxrent"@)),
        Screen::Area => ("📍 Tap areas to toggle (none selected = all Stockholm):"@, area_keyboard_spec(f)),
    }
}

/// Renders a screen: the message text and its inline keyboard.
pub fn render(screen: Screen, filters: &Filters) -> (r: (String, Keyboard))
    ensures
        (r.0@, r.1@) == render_spec(screen, filters@),
{
    match screen {
        Screen::Main => (main_text(filters), main_keyboard(filters)),
        Screen::Age => (String::from_str("⏱ Published within — pick a max age:"), age_keyboard(filters)),
        Screen::Rooms => (String::from_str("🛏 Minimum number of rooms:"), rooms_keyboard(filters)),
        Screen::MinRent => (String::from_str("💰 Minimum rent (SEK / month):"), rent_keyboard(filters.min_rent, "minrent")),
        Screen::MaxRent => (String::from_str("💰 Maximum rent (SEK / month):"), rent_keyboard(filters.max_rent, "maxrent")),
        Screen::Area => (String::from_str("📍 Tap areas to toggle (none selected = all Stockholm):"), area_keyboard(filters)),
    }
}


// ---------------------------------------------------------------------------
// What the screens offer
// ---------------------------------------------------------------------------

/// Does a button label carry the selection mark?
pub open spec fn marked(t: Seq<char>) -> bool {
    t.len() >= 2 && t.take(2) == "• "@
}

/// Every button in a grid of rows is one of the buttons laid out.
pub proof fn lemma_chunks_member<T>(s: Seq<T>, n: nat, r: int, c: int)
    requires
        n > 0,
        0 <= r < chunks(s, n).len(),
        0 <= c < chunks(s, n)[r].len(),
    ensures
        exists|i: int| 0 <= i < s.len() && chunks(s, n)[r][c] == s[i],
    decreases s.len(),
{
    if s.len() <= n {
        assert(chunks(s, n) == seq![s]);
        assert(chunks(s, n)[r][c] == s[c]);
    } else {
        let tail = chunks(s.skip(n as int), n);
        assert(chunks(s, n) == seq![s.take(n as int)] + tail);
        if r == 0 {
            assert(chunks(s, n)[0][c] == s[c]);
        } else {
            assert(chunks(s, n)[r] == tail[r - 1]);
            lemma_chunks_member(s.skip(n as int), n, r - 1, c);
            let i = choose|i: int| 0 <= i < s.skip(n as int).len() && tail[r - 1][c] == s.skip(n as int)[i];
            assert(s.skip(n as int)[i] == s[i + n]);
        }
    }
}

/// The button at row `r`, column `c` of a grid `n` wide is the one laid out
/// at position `r * n + c`.
pub proof fn lemma_chunks_index<T>(s: Seq<T>, n: nat, r: int, c: int)
    requires
        n > 0,
        0 <= r < chunks(s, n).len(),
        0 <= c < chunks(s, n)[r].len(),
    ensures
        0 <= r * n + c < s.len(),
        chunks(s, n)[r][c] == s[r * n + c],
    decreases s.len(),
{
    if s.len() <= n {
        assert(chunks(s, n) == seq![s]);
        assert(r == 0);
    } else {
        let tail = chunks(s.skip(n as int), n);
        assert(chunks(s, n) == seq![s.take(n as int)] + tail);
        if r == 0 {
            assert(chunks(s, n)[0][c] == s[c]);
        } else {
            assert(chunks(s, n)[r] == tail[r - 1]);
            lemma_chunks_index(s.skip(n as int), n, r - 1, c);
            assert((r - 1) * n + c + n == r * n + c) by (nonlinear_arith);
            assert(s.skip(n as int)[(r - 1) * n + c] == s[r * n + c]);
        }
    }
}

/// A press whose data is a known key, a colon and any value is never
/// ignored.
proof fn lemma_keyed_press_routed(f: FiltersModel, k: Seq<char>, v: Seq<char>)
    requires
        k == "age"@ || k == "rooms"@ || k == "minrent"@ || k == "maxrent"@ || k == "area"@,
    ensures
        apply_spec(f, k + ":"@ + v).1 != Action::Ignore,
{
    reveal_strlit("age");
    reveal_strlit("rooms");
    reveal_strlit("minrent");
    reveal_strlit("maxrent");
    reveal_strlit("area");
    reveal_strlit(":");
    let d = k + ":"@ + v;
    assert(d[k.len() as int] == ':');
    assert forall|m: int| 0 <= m < k.len() implies d[m] != ':' by {
        assert(d[m] == k[m]);
    }
    crate::text::lemma_index_of_first(d, ':', k.len() as int);
    assert(d.take(k.len() as int) =~= k);
}

/// No area's name starts with the selection mark.
proof fn lemma_area_label_unmarked(a: Area)
    ensures
        !marked(area_label(a)),
{
    reveal_strlit("• ");
    reveal_strlit("Södermalm");
    reveal_strlit("Kungsholmen");
    reveal_strlit("Vasastan");
    reveal_strlit("Östermalm");
    reveal_strlit("Norrmalm");
    reveal_strlit("Gamla stan");
    reveal_strlit("Gärdet");
    reveal_strlit("Djurgården");
    reveal_strlit("Hammarby Sjöstad");
    reveal_strlit("Liljeholmen");
    reveal_strlit("Hägersten");
    reveal_strlit("Aspudden");
    reveal_strlit("Midsommarkransen");
    reveal_strlit("Telefonplan");
    reveal_strlit("Årsta");
    reveal_strlit("Gullmarsplan");
    reveal_strlit("Hammarbyhöjden");
    reveal_strlit("Björkhagen");
    reveal_strlit("Kärrtorp");
    reveal_strlit("Enskede");
    reveal_strlit("Stureby");
    reveal_strlit("Bandhagen");
    reveal_strlit("Högdalen");
    reveal_strlit("Rågsved");
    reveal_strlit("Hagsätra");
    reveal_strlit("Farsta");
    reveal_strlit("Sköndal");
    reveal_strlit("Gubbängen");
    reveal_strlit("Älvsjö");
    reveal_strlit("Hökarängen");
    reveal_strlit("Skarpnäck");
    reveal_strlit("Bagarmossen");
    reveal_strlit("Kista");
    reveal_strlit("Husby");
    reveal_strlit("Akalla");
    reveal_strlit("Rinkeby");
    reveal_strlit("Tensta");
    reveal_strlit("Spånga");
    reveal_strlit("Hässelby");
    reveal_strlit("Vällingby");
    reveal_strlit("Blackeberg");
    reveal_strlit("Bromma");
    reveal_strlit("Traneberg");
    reveal_strlit("Mariehäll");
    reveal_strlit("Sundbyberg");
    reveal_strlit("Solna");
    reveal_strlit("Sollentuna");
    reveal_strlit("Nacka");
    reveal_strlit("Sickla");
    reveal_strlit("Danderyd");
    reveal_strlit("Lidingö");
    reveal_strlit("Huddinge");
    reveal_strlit("Järfälla");
    reveal_strlit("Täby");
    reveal_strlit("Skärholmen");
    reveal_strlit("Fruängen");
    reveal_strlit("Bredäng");
    reveal_strlit("Norsborg");
    reveal_strlit("Fredhäll");
    if marked(area_label(a)) {
        assert(area_label(a).take(2)[0] == area_label(a)[0]);
    }
}

/// Every button a screen offers is answered by `apply`, whatever the
/// filters are by the time it is pressed; the main screen offers one row per
/// filter and then Search, under its summary text.
pub proof fn lemma_render_routes_every_button(screen: Screen, f: FiltersModel, g: FiltersModel)
    ensures
        forall|r: int, c: int|
            0 <= r < render_spec(screen, f).1.len() && 0 <= c < render_spec(screen, f).1[r].len() ==> apply_spec(
                g,
                (#[trigger] render_spec(screen, f).1[r][c]).1,
            ).1 != Action::Ignore,
        screen == Screen::Main ==> {
            let kb = render_spec(screen, f).1;
            &&& render_spec(screen, f).0 == main_text_spec(f)
            &&& kb.len() == 6
            &&& forall|r: int| 0 <= r < 6 ==> (#[trigger] kb[r]).len() == 1
            &&& kb[0][0].1 == "menu:age"@ && kb[1][0].1 == "menu:rooms"@ && kb[2][0].1 == "menu:minrent"@
            &&& kb[3][0].1 == "menu:maxrent"@ && kb[4][0].1 == "menu:area"@ && kb[5][0].1 == "go"@
        },
        screen == Screen::Area ==> render_spec(screen, f).1 == area_keyboard_spec(f),
{
    let kb = render_spec(screen, f).1;
    reveal_strlit("age:");
    reveal_strlit("rooms:");
    reveal_strlit("area:");
    reveal_strlit("age");
    reveal_strlit("rooms");
    reveal_strlit("area");
    reveal_strlit(":");
    match screen {
        Screen::Main => {},
        Screen::Age => {
            let bs = ages().map_values(|h: i64| age_button(f, h));
            assert forall|r: int, c: int| 0 <= r < kb.len() && 0 <= c < kb[r].len() implies apply_spec(
                g,
                (#[trigger] kb[r][c]).1,
            ).1 != Action::Ignore by {
                if r < kb.len() - 1 {
                    assert(kb[r] == chunks(bs, 4)[r]);
                    lemma_chunks_member(bs, 4, r, c);
                    let i = choose|i: int| 0 <= i < bs.len() && chunks(bs, 4)[r][c] == bs[i];
                    let h = ages()[i];
                    assert("age:"@ + dec_int(h as int) =~= "age"@ + ":"@ + dec_int(h as int));
                    lemma_keyed_press_routed(g, "age"@, dec_int(h as int));
                }
            }
        },
        Screen::Rooms => {
            let bs = room_buttons(f.min_rooms);
            assert forall|r: int, c: int| 0 <= r < kb.len() && 0 <= c < kb[r].len() implies apply_spec(
                g,
                (#[trigger] kb[r][c]).1,
            ).1 != Action::Ignore by {
                if r < kb.len() - 1 {
                    assert(kb[r] == chunks(bs, 3)[r]);
                    lemma_chunks_member(bs, 3, r, c);
                    let i = choose|i: int| 0 <= i < bs.len() && chunks(bs, 3)[r][c] == bs[i];
                    assert("rooms:"@ + dec_nat(i as nat) =~= "rooms"@ + ":"@ + dec_nat(i as nat));
                    lemma_keyed_press_routed(g, "rooms"@, dec_nat(i as nat));
                }
            }
        },
        Screen::MinRent | Screen::MaxRent => {
            let (sel, prefix) = if screen == Screen::MinRent {
                (f.min_rent, "minrent"@)
            } else {
                (f.max_rent, "maxrent"@)
            };
            let bs = rents().map_values(|v: i64| rent_button(sel, prefix, v));
            assert forall|r: int, c: int| 0 <= r < kb.len() && 0 <= c < kb[r].len() implies apply_spec(
                g,
                (#[trigger] kb[r][c]).1,
            ).1 != Action::Ignore by {
                if r < kb.len() - 1 {
                    assert(kb[r] == chunks(bs, 3)[r]);
                    lemma_chunks_member(bs, 3, r, c);
                    let i = choose|i: int| 0 <= i < bs.len() && chunks(bs, 3)[r][c] == bs[i];
                    lemma_keyed_press_routed(g, prefix, dec_int(rents()[i] as int));
                }
            }
        },
        Screen::Area => {
            let bs = Seq::new(AREA_COUNT as nat, |i: int| area_button(f.areas, i));
            assert forall|r: int, c: int| 0 <= r < kb.len() && 0 <= c < kb[r].len() implies apply_spec(
                g,
                (#[trigger] kb[r][c]).1,
            ).1 != Action::Ignore by {
                if r < kb.len() - 1 {
                    assert(kb[r] == chunks(bs, 3)[r]);
                    lemma_chunks_member(bs, 3, r, c);
                    let i = choose|i: int| 0 <= i < bs.len() && chunks(bs, 3)[r][c] == bs[i];
                    assert("area:"@ + dec_nat(i as nat) =~= "area"@ + ":"@ + dec_nat(i as nat));
                    lemma_keyed_press_routed(g, "area"@, dec_nat(i as nat));
                } else {
                    assert(kb[r] == area_controls_row());
                }
            }
        },
    }
}

/// On the area screen the button at row `r`, column `c` of the grid is the
/// one for the area at position `3 * r + c`, and it carries the selection
/// mark exactly when that area is selected.
pub proof fn lemma_area_button_marked(f: FiltersModel, r: int, c: int)
    requires
        0 <= r < area_keyboard_spec(f).len() - 1,
        0 <= c < area_keyboard_spec(f)[r].len(),
    ensures
        0 <= 3 * r + c < AREA_COUNT,
        area_keyboard_spec(f)[r][c] == area_button(f.areas, 3 * r + c),
        marked(area_keyboard_spec(f)[r][c].0) <==> f.areas.contains(areas_in_order()[3 * r + c]),
{
    let bs = Seq::new(AREA_COUNT as nat, |i: int| area_button(f.areas, i));
    assert(area_keyboard_spec(f)[r] == chunks(bs, 3)[r]);
    lemma_chunks_index(bs, 3, r, c);
    let a = areas_in_order()[3 * r + c];
    lemma_area_label_unmarked(a);
    reveal_strlit("• ");
    let t = area_keyboard_spec(f)[r][c].0;
    if f.areas.contains(a) {
        assert(t == "• "@ + area_label(a));
        assert(t.take(2) =~= "• "@);
    }
}


// ---------------------------------------------------------------------------
// What the rent presses and the filters mean
// ---------------------------------------------------------------------------

/// A rent press `maxrent:v` sets the maximum rent to `v` (no maximum when `v`
/// is not positive) and `minrent:v` the minimum likewise; each leaves every
/// other filter, the other bound included, as it was, and goes back to the
/// main screen.
pub proof fn lemma_rent_press(f: FiltersModel, v: i64)
    ensures
        apply_spec(f, "maxrent:"@ + dec_int(v as int)) == (
            FiltersModel { max_rent: if v > 0 { Some(v) } else { None }, ..f },
            Action::Show(Screen::Main),
        ),
        apply_spec(f, "minrent:"@ + dec_int(v as int)) == (
            FiltersModel { min_rent: if v > 0 { Some(v) } else { None }, ..f },
            Action::Show(Screen::Main),
        ),
{
    lemma_rent_press_key(f, v, "maxrent"@);
    lemma_rent_press_key(f, v, "minrent"@);
    reveal_strlit("maxrent:");
    reveal_strlit("minrent:");
    reveal_strlit("maxrent");
    reveal_strlit("minrent");
    reveal_strlit(":");
    assert("maxrent:"@ + dec_int(v as int) =~= "maxrent"@ + ":"@ + dec_int(v as int));
    assert("minrent:"@ + dec_int(v as int) =~= "minrent"@ + ":"@ + dec_int(v as int));
    assert("maxrent"@[1] != "minrent"@[1]);
    assert("maxrent"@ != "minrent"@);
}

/// `lemma_rent_press` for one of the two keys.
proof fn lemma_rent_press_key(f: FiltersModel, v: i64, k: Seq<char>)
    requires
        k == "maxrent"@ || k == "minrent"@,
    ensures
        apply_spec(f, k + ":"@ + dec_int(v as int)) == (
            if k == "maxrent"@ {
                FiltersModel { max_rent: if v > 0 { Some(v) } else { None }, ..f }
            } else {
                FiltersModel { min_rent: if v > 0 { Some(v) } else { None }, ..f }
            },
            Action::Show(Screen::Main),
        ),
{
    reveal_strlit("go");
    reveal_strlit("back");
    reveal_strlit("menu:age");
    reveal_strlit("menu:rooms");
    reveal_strlit("menu:minrent");
    reveal_strlit("menu:maxrent");
    reveal_strlit("menu:area");
    reveal_strlit("areaclear");
    reveal_strlit("age");
    reveal_strlit("rooms");
    reveal_strlit("minrent");
    reveal_strlit("maxrent");
    reveal_strlit(":");
    let digits = dec_int(v as int);
    crate::text::lemma_dec_int_parses(v as int);
    let d = k + ":"@ + digits;
    assert(d.len() >= 8);
    assert(d[0] == 'm');
    assert(d[7] == ':');
    assert forall|m: int| 0 <= m < 7 implies d[m] != ':' by {
        assert(d[m] == k[m]);
    }
    crate::text::lemma_index_of_first(d, ':', 7);
    assert(d.take(7) =~= k);
    assert(d.skip(8) =~= digits);
    assert(d != "go"@ && d != "back"@ && d != "areaclear"@);
    assert(d[1] != "menu:age"@[1]);
    assert(d != "menu:age"@ && d != "menu:rooms"@ && d != "menu:minrent"@);
    assert(d != "menu:maxrent"@ && d != "menu:area"@);
    assert(k != "age"@ && k != "rooms"@);
    assert("maxrent"@[1] != "minrent"@[1]);
    assert("maxrent"@ != "minrent"@);
    assert(parse_i64(digits) == Some(v));
}

/// The room filter is a lower bound on the room count and nothing else:
/// with a minimum set, a listing passes exactly when its room count is known
/// and at least the minimum and it passes the other filters, whatever its
/// room count; without one the room count plays no part. So more rooms
/// never turn a passing listing into a failing one.
pub proof fn lemma_room_filter_is_a_lower_bound(f: FiltersModel, h: Home, rooms: Option<i64>)
    ensures
        passes_spec(f, &Home { room_count_tenths: rooms, ..h }) == ((f.min_rooms == 0 || match rooms {
            Some(r) => r >= f.min_rooms * 10,
            None => false,
        }) && passes_spec(FiltersModel { min_rooms: 0, ..f }, &h)),
        forall|r1: i64, r2: i64|
            r1 <= r2 && #[trigger] passes_spec(f, &Home { room_count_tenths: Some(r1), ..h }) ==> #[trigger] passes_spec(
                f,
                &Home { room_count_tenths: Some(r2), ..h },
            ),
{
}

/// The rent filter is a range on the rent and nothing else: a listing
/// passes exactly when each bound that is set holds of its known rent and it
/// passes the other filters, whatever its rent.
pub proof fn lemma_rent_filter_is_a_range(f: FiltersModel, h: Home, rent: Option<i64>)
    ensures
        passes_spec(f, &Home { rent: rent, ..h }) == ((match f.min_rent {
            Some(m) => match rent {
                Some(x) => x >= m,
                None => false,
            },
            None => true,
        }) && (match f.max_rent {
            Some(m) => match rent {
                Some(x) => x <= m,
                None => false,
            },
            None => true,
        }) && passes_spec(FiltersModel { min_rent: None, max_rent: None, ..f }, &h)),
{
}

/// An age press `age:h` sets the age window to `h` hours when `h` is one of
/// the presets (3, 6, 12, 24, 48, 72 or 168) and leaves it otherwise; it
/// leaves every other filter as it was and goes back to the main screen.
pub proof fn lemma_age_press(f: FiltersModel, h: i64)
    ensures
        apply_spec(f, "age:"@ + dec_int(h as int)) == (
            if h == 3 || h == 6 || h == 12 || h == 24 || h == 48 || h == 72 || h == 168 {
                FiltersModel { age_hours: h, ..f }
            } else {
                f
            },
            Action::Show(Screen::Main),
        ),
{
    reveal_strlit("go");
    reveal_strlit("back");
    reveal_strlit("menu:age");
    reveal_strlit("menu:rooms");
    reveal_strlit("menu:minrent");
    reveal_strlit("menu:maxrent");
    reveal_strlit("menu:area");
    reveal_strlit("areaclear");
    reveal_strlit("age:");
    reveal_strlit("age");
    let digits = dec_int(h as int);
    crate::text::lemma_dec_int_parses(h as int);
    let d = "age:"@ + digits;
    assert(d.len() >= 5);
    assert(d[0] == 'a' && d[1] == 'g' && d[3] == ':');
    assert forall|m: int| 0 <= m < 3 implies d[m] != ':' by {
        assert(d[m] == "age:"@[m]);
    }
    crate::text::lemma_index_of_first(d, ':', 3);
    assert(d.take(3) =~= "age"@);
    assert(d.skip(4) =~= digits);
    assert(d[1] != "areaclear"@[1] && d[0] != "go"@[0] && d[0] != "back"@[0]);
    assert(d != "go"@ && d != "back"@ && d != "areaclear"@);
    assert(d[0] != "menu:age"@[0]);
    assert(d != "menu:age"@ && d != "menu:rooms"@ && d != "menu:minrent"@);
    assert(d != "menu:maxrent"@ && d != "menu:area"@);
    assert(parse_i64(digits) == Some(h));
}

/// A rooms press `rooms:r` sets the minimum room count to `r` when `r` is a
/// preset (0, meaning any, up to 5) and leaves it otherwise; it leaves every
/// other filter as it was and goes back to the main screen.
pub proof fn lemma_rooms_press(f: FiltersModel, r: u8)
    ensures
        apply_spec(f, "rooms:"@ + dec_nat(r as nat)) == (
            if r <= 5 {
                FiltersModel { min_rooms: r, ..f }
            } else {
                f
            },
            Action::Show(Screen::Main),
        ),
{
    reveal_strlit("go");
    reveal_strlit("back");
    reveal_strlit("menu:age");
    reveal_strlit("menu:rooms");
    reveal_strlit("menu:minrent");
    reveal_strlit("menu:maxrent");
    reveal_strlit("menu:area");
    reveal_strlit("areaclear");
    reveal_strlit("rooms:");
    reveal_strlit("rooms");
    reveal_strlit("age");
    let digits = dec_nat(r as nat);
    lemma_dec_nat_parses(r as nat);
    let d = "rooms:"@ + digits;
    assert(d.len() >= 7);
    assert(d[0] == 'r' && d[5] == ':');
    assert forall|m: int| 0 <= m < 5 implies d[m] != ':' by {
        assert(d[m] == "rooms:"@[m]);
    }
    crate::text::lemma_index_of_first(d, ':', 5);
    assert(d.take(5) =~= "rooms"@);
    assert(d.skip(6) =~= digits);
    assert(d[0] != "areaclear"@[0] && d[0] != "go"@[0] && d[0] != "back"@[0]);
    assert(d != "go"@ && d != "back"@ && d != "areaclear"@);
    assert(d[0] != "menu:age"@[0]);
    assert(d != "menu:age"@ && d != "menu:rooms"@ && d != "menu:minrent"@);
    assert(d != "menu:maxrent"@ && d != "menu:area"@);
    assert("rooms"@ != "age"@);
    assert(is_ascii_digit(digits[0]));
    assert(parse_unsigned(digits, u8::MAX as nat) == Some(r as nat));
}
} // verus!
