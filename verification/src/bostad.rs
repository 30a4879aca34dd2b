//! Ads of Bostadsförmedlingen's public listings feed.
//!
//! `https://bostad.stockholm.se/AllaAnnonser/` returns one unauthenticated
//! JSON array of every live ad, with per-ad category booleans. The schema is
//! undocumented and drift-prone, so every field but the id is optional.
//! Fractional quantities (room counts, areas in m²) are held in tenths, so
//! that `1.5` rooms is `15`.

use vstd::prelude::*;

use crate::text::push_char;

verus! {

/// Queue-time statistics of comparable recent lettings, in years.
#[derive(Clone, Debug)]
pub struct KotidStatistik {
    /// First quartile of the queue time.
    pub kotid_fordelning_q1: Option<i64>,
    /// Third quartile of the queue time.
    pub kotid_fordelning_q3: Option<i64>,
}

/// A single Bostadsförmedlingen ad. `annons_id` is the stable identity of an
/// ad, but it is not monotonic with publish date (ads created early and
/// published late keep their low id), so dedup uses a seen-id set rather
/// than a watermark.
#[derive(Clone, Debug)]
pub struct Ad {
    pub annons_id: u64,
    pub gatuadress: Option<String>,
    pub stadsdel: Option<String>,
    pub kommun: Option<String>,
    /// Number of rooms, in tenths.
    pub antal_rum_tenths: Option<i64>,
    /// Living area in m², in tenths.
    pub yta_tenths: Option<i64>,
    pub hyra: Option<i64>,
    /// Multi-unit ("project") ads carry a rent/size range instead of
    /// `hyra`/`yta`.
    pub lagsta_hyran: Option<i64>,
    pub hogsta_hyran: Option<i64>,
    /// Smallest living area of a project, in tenths of m².
    pub lagsta_ytan_tenths: Option<i64>,
    /// Largest living area of a project, in tenths of m².
    pub hogsta_ytan_tenths: Option<i64>,
    pub annonserad_till: Option<String>,
    /// Relative listing path, e.g. `/bostad/202614943/`.
    pub url: Option<String>,
    pub lagenhetstyp: Option<String>,
    pub nyproduktion: bool,
    pub student: bool,
    pub ungdom: bool,
    pub senior: bool,
    pub korttid: bool,
    pub vanlig: bool,
    /// First-come-first-served fast track: the ads where speed actually
    /// wins.
    pub bostad_snabbt: bool,
    pub kort_kotid: bool,
    pub liknade_lagenhet_statistik: Option<KotidStatistik>,
}

/// The first of the options that is present.
pub open spec fn first_some(a: Option<i64>, b: Option<i64>, c: Option<i64>) -> Option<i64> {
    if a is Some {
        a
    } else if b is Some {
        b
    } else {
        c
    }
}

/// Monthly rent: the single-unit figure, else the top of a project range,
/// else its bottom.
pub open spec fn ad_rent(ad: &Ad) -> Option<i64> {
    first_some(ad.hyra, ad.hogsta_hyran, ad.lagsta_hyran)
}

/// Living area in tenths of m², with the same fallback as the rent.
pub open spec fn ad_sqm(ad: &Ad) -> Option<i64> {
    first_some(ad.yta_tenths, ad.hogsta_ytan_tenths, ad.lagsta_ytan_tenths)
}

/// The site that the relative listing paths belong to.
pub open spec fn bostad_site() -> Seq<char> {
    "https://bostad.stockholm.se"@
}

/// The absolute listing page URL.
pub open spec fn ad_full_url(ad: &Ad) -> Seq<char> {
    bostad_site() + match ad.url {
        Some(u) => u@,
        None => "/"@,
    }
}

/// First quartile of the queue time of comparable lettings, in years.
pub open spec fn ad_queue_q1(ad: &Ad) -> Option<i64> {
    match ad.liknade_lagenhet_statistik {
        Some(s) => s.kotid_fordelning_q1,
        None => None,
    }
}

/// Third quartile of the queue time of comparable lettings, in years.
pub open spec fn ad_queue_q3(ad: &Ad) -> Option<i64> {
    match ad.liknade_lagenhet_statistik {
        Some(s) => s.kotid_fordelning_q3,
        None => None,
    }
}

impl Ad {
    /// Monthly rent: the single-unit figure, else the top of a project range.
    pub fn rent(&self) -> (r: Option<i64>)
        ensures
            r == ad_rent(self),
    {
        if self.hyra.is_some() {
            self.hyra
        } else if self.hogsta_hyran.is_some() {
            self.hogsta_hyran
        } else {
            self.lagsta_hyran
        }
    }

    /// Living area in tenths of m², with the same single-then-range fallback
    /// as `rent`.
    pub fn sqm(&self) -> (r: Option<i64>)
        ensures
            r == ad_sqm(self),
    {
        if self.yta_tenths.is_some() {
            self.yta_tenths
        } else if self.hogsta_ytan_tenths.is_some() {
            self.hogsta_ytan_tenths
        } else {
            self.lagsta_ytan_tenths
        }
    }

    /// Absolute listing page URL.
    pub fn full_url(&self) -> (r: String)
        ensures
            r@ == ad_full_url(self),
    {
        let mut r = String::new();
        r.append("https://bostad.stockholm.se");
        match &self.url {
            Some(u) => r.append(u.as_str()),
            None => push_char(&mut r, '/'),
        }
        proof {
            reveal_strlit("/");
            assert(seq!['/'] == "/"@);
        }
        r
    }

    /// First quartile of the queue time of comparable lettings, in years.
    pub fn queue_q1(&self) -> (r: Option<i64>)
        ensures
            r == ad_queue_q1(self),
    {
        match &self.liknade_lagenhet_statistik {
            Some(s) => s.kotid_fordelning_q1,
            None => None,
        }
    }

    /// Third quartile of the queue time of comparable lettings, in years.
    pub fn queue_q3(&self) -> (r: Option<i64>)
        ensures
            r == ad_queue_q3(self),
    {
        match &self.liknade_lagenhet_statistik {
            Some(s) => s.kotid_fordelning_q3,
            None => None,
        }
    }
}

} // verus!
