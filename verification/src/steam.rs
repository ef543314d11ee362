//! Looking games up online: the Steam store search and SteamGridDB requests
//! made for a name, and how their answers become metadata candidates.
use vstd::prelude::*;
use vstd::string::StringSliceAdditionalSpecFns;
use crate::percent::{percent_encode, url_encode};
use crate::sort::{arranged, permute, stable_order, stably_sorted};
use crate::text::{opt_chars, str_chars, strs_view, trim_chars, trimmed};

verus! {

/// The decimal digit character for `d` (below ten).
pub open spec fn digit_char(d: u128) -> char {
    ((d + 48) as u8) as char
}

/// The decimal digits of `n`, most significant first.
pub open spec fn dec_digits(n: u128) -> Seq<char>
    decreases n,
{
    if n < 10 {
        seq![digit_char(n)]
    } else {
        dec_digits(n / 10).push(digit_char(n % 10))
    }
}

/// The decimal text of `i`, with a leading `-` when negative (what
/// `i64::to_string` writes).
pub open spec fn decimal_text(i: i64) -> Seq<char> {
    if i < 0 {
        seq!['-'] + dec_digits((-(i as int)) as u128)
    } else {
        dec_digits(i as u128)
    }
}

fn digits_of(n: u128) -> (r: Vec<char>)
    ensures
        r@ == dec_digits(n),
    decreases n,
{
    if n < 10 {
        let d = (n as u8 + 48) as char;
        let mut v: Vec<char> = Vec::new();
        v.push(d);
        assert(v@ =~= seq![digit_char(n)]);
        v
    } else {
        let mut v = digits_of(n / 10);
        let m = n % 10;
        v.push((m as u8 + 48) as char);
        v
    }
}

/// The decimal text of `i`.
pub fn decimal(i: i64) -> (r: String)
    ensures
        r@ == decimal_text(i),
{
    let mut out: Vec<char> = Vec::new();
    if i < 0 {
        out.push('-');
        let mag = (-(i as i128)) as u128;
        let ds = digits_of(mag);
        let mut k: usize = 0;
        while k < ds.len()
            invariant
                k <= ds@.len(),
                out@ == seq!['-'] + ds@.take(k as int),
            decreases ds@.len() - k,
        {
            out.push(ds[k]);
            k = k + 1;
            assert(out@ =~= seq!['-'] + ds@.take(k as int));
        }
        assert(ds@.take(k as int) =~= ds@);
    } else {
        out = digits_of(i as u128);
    }
    crate::text::string_from_chars(&out)
}

/// The Steam store search for `query`, percent-encoded.
pub open spec fn steam_search(query: Seq<u8>) -> Seq<char> {
    "https://store.steampowered.com/api/storesearch/?term="@ + percent_encode(query) + "&l=english&cc=US"@
}

/// The Steam store search request for a name.
pub fn steam_search_url(query: &str) -> (r: String)
    ensures
        r@ == steam_search(query.spec_bytes()),
{
    let head = "https://store.steampowered.com/api/storesearch/?term=".to_owned();
    let enc = url_encode(query);
    head.concat(enc.as_str()).concat("&l=english&cc=US")
}

/// Where Steam keeps an app's logo, in the order they are tried.
pub open spec fn steam_logo_list(id: Seq<char>) -> Seq<Seq<char>> {
    seq![
        "https://shared.akamai.steamstatic.com/store_item_assets/steam/apps/"@ + id + "/logo.png"@,
        "https://cdn.cloudflare.steamstatic.com/steam/apps/"@ + id + "/logo.png"@,
    ]
}

/// Where Steam keeps an app's background art, in the order they are tried.
pub open spec fn steam_wallpaper_list(id: Seq<char>) -> Seq<Seq<char>> {
    seq![
        "https://shared.akamai.steamstatic.com/store_item_assets/steam/apps/"@ + id + "/library_hero.jpg"@,
        "https://shared.akamai.steamstatic.com/store_item_assets/steam/apps/"@ + id + "/page_bg_generated_v6.jpg"@,
        "https://shared.akamai.steamstatic.com/store_item_assets/steam/apps/"@ + id + "/header.jpg"@,
    ]
}

fn wrap(head: &str, id: &str, tail: &str) -> (r: String)
    ensures
        r@ == head@ + id@ + tail@,
{
    head.to_owned().concat(id).concat(tail)
}

/// The logo addresses of a Steam app.
pub fn steam_logo_urls(id: &str) -> (r: Vec<String>)
    ensures
        r@.map_values(|s: String| s@) == steam_logo_list(id@),
{
    let mut v: Vec<String> = Vec::new();
    v.push(wrap("https://shared.akamai.steamstatic.com/store_item_assets/steam/apps/", id, "/logo.png"));
    v.push(wrap("https://cdn.cloudflare.steamstatic.com/steam/apps/", id, "/logo.png"));
    assert(v@.map_values(|s: String| s@) =~= steam_logo_list(id@));
    v
}

/// The background art addresses of a Steam app.
pub fn steam_wallpaper_urls(id: &str) -> (r: Vec<String>)
    ensures
        r@.map_values(|s: String| s@) == steam_wallpaper_list(id@),
{
    let mut v: Vec<String> = Vec::new();
    v.push(wrap("https://shared.akamai.steamstatic.com/store_item_assets/steam/apps/", id, "/library_hero.jpg"));
    v.push(
        wrap("https://shared.akamai.steamstatic.com/store_item_assets/steam/apps/", id, "/page_bg_generated_v6.jpg"),
    );
    v.push(wrap("https://shared.akamai.steamstatic.com/store_item_assets/steam/apps/", id, "/header.jpg"));
    assert(v@.map_values(|s: String| s@) =~= steam_wallpaper_list(id@));
    v
}

/// One item of a Steam store search answer, as plain values.
pub struct SteamItem {
    /// The item's `type`, when it is text.
    pub kind: Option<String>,
    /// Whether the item has an `id` at all.
    pub has_id: bool,
    /// The item's `id`, when it is an integer.
    pub id: Option<i64>,
    /// Whether the item has a `name` at all.
    pub has_name: bool,
    /// The item's `name`, when it is text.
    pub name: Option<String>,
}

/// What the search answer's first item gives: its name (the query when the
/// name is not text) and its app id (0 when the id is not an integer), as
/// long as it has both an id and a name.
pub open spec fn first_match(items: Seq<SteamItem>, query: Seq<char>) -> Option<(Seq<char>, Seq<char>)> {
    if items.len() == 0 {
        None
    } else {
        let it = items[0];
        if it.has_id && it.has_name {
            Some(
                (
                    match it.name {
                        Some(n) => n@,
                        None => query,
                    },
                    decimal_text(
                        match it.id {
                            Some(i) => i,
                            None => 0,
                        },
                    ),
                ),
            )
        } else {
            None
        }
    }
}

/// The name and app id of the best Steam search hit for `query`.
pub fn first_steam_match(items: &Vec<SteamItem>, query: &str) -> (r: Option<(String, String)>)
    ensures
        match first_match(items@, query@) {
            Some((n, id)) => r matches Some(p) && p.0@ == n && p.1@ == id,
            None => r is None,
        },
{
    if items.len() == 0 {
        return None;
    }
    let it = &items[0];
    if !(it.has_id && it.has_name) {
        return None;
    }
    let name = match &it.name {
        Some(n) => n.clone(),
        None => query.to_owned(),
    };
    let id = match it.id {
        Some(i) => i,
        None => 0,
    };
    Some((name, decimal(id)))
}

/// Game metadata found on Steam.
#[derive(Debug, Clone)]
pub struct SteamMetadata {
    pub name: String,
    pub app_id: String,
    pub wallpaper: String,
    pub logo: String,
}

/// The first address that answered, or nothing.
pub open spec fn first_answered(urls: Seq<String>, ok: Seq<bool>) -> Seq<char>
    decreases urls.len(),
{
    if urls.len() == 0 || ok.len() == 0 {
        Seq::empty()
    } else if ok[0] {
        urls[0]@
    } else {
        first_answered(urls.drop_first(), ok.drop_first())
    }
}

/// The first of `urls` that answered (`ok`, one flag each), or an empty
/// string when none did.
pub fn first_ok(urls: &Vec<String>, ok: &Vec<bool>) -> (r: String)
    requires
        ok@.len() == urls@.len(),
    ensures
        r@ == first_answered(urls@, ok@),
{
    let mut i: usize = 0;
    assert(urls@.skip(0) =~= urls@);
    assert(ok@.skip(0) =~= ok@);
    while i < urls.len()
        invariant
            ok@.len() == urls@.len(),
            i <= urls@.len(),
            first_answered(urls@, ok@) == first_answered(urls@.skip(i as int), ok@.skip(i as int)),
        decreases urls@.len() - i,
    {
        assert(urls@.skip(i as int).drop_first() =~= urls@.skip(i + 1));
        assert(ok@.skip(i as int).drop_first() =~= ok@.skip(i + 1));
        if ok[i] {
            return urls[i].clone();
        }
        i = i + 1;
    }
    String::new()
}

/// The addresses that answered, in order.
pub open spec fn answered(urls: Seq<String>, ok: Seq<bool>) -> Seq<Seq<char>>
    decreases urls.len(),
{
    if urls.len() == 0 || ok.len() == 0 {
        Seq::empty()
    } else {
        let rest = answered(urls.drop_first(), ok.drop_first());
        if ok[0] {
            seq![urls[0]@] + rest
        } else {
            rest
        }
    }
}

/// The images among `urls` that answered (`ok`, one flag each), in order.
pub fn answered_urls(urls: &Vec<String>, ok: &Vec<bool>) -> (r: Vec<String>)
    requires
        ok@.len() == urls@.len(),
    ensures
        strs_view(r@) == answered(urls@, ok@),
{
    let mut r: Vec<String> = Vec::new();
    let mut i: usize = 0;
    assert(urls@.skip(0) =~= urls@);
    assert(ok@.skip(0) =~= ok@);
    while i < urls.len()
        invariant
            ok@.len() == urls@.len(),
            i <= urls@.len(),
            strs_view(r@) + answered(urls@.skip(i as int), ok@.skip(i as int)) == answered(urls@, ok@),
        decreases urls@.len() - i,
    {
        assert(urls@.skip(i as int).drop_first() =~= urls@.skip(i + 1));
        assert(ok@.skip(i as int).drop_first() =~= ok@.skip(i + 1));
        let ghost before = strs_view(r@);
        if ok[i] {
            r.push(urls[i].clone());
            assert(strs_view(r@) =~= before.push(urls@[i as int]@));
            assert(before + answered(urls@.skip(i as int), ok@.skip(i as int)) =~= strs_view(r@) + answered(
                urls@.skip(i + 1),
                ok@.skip(i + 1),
            ));
        }
        i = i + 1;
    }
    assert(answered(urls@.skip(i as int), ok@.skip(i as int)) =~= Seq::<Seq<char>>::empty());
    assert(strs_view(r@) + Seq::<Seq<char>>::empty() =~= strs_view(r@));
    r
}

/// Most store search hits turned into candidates.
pub const MAX_STEAM_HITS: usize = 5;

/// A store search item that names an app: `type` is `app` and it has an id.
pub open spec fn is_app_hit(it: SteamItem) -> bool {
    opt_chars(it.kind) == Some("app"@) && it.has_id
}

/// The app hits among `items`, in order.
pub open spec fn app_hits(items: Seq<SteamItem>) -> Seq<SteamItem>
    decreases items.len(),
{
    if items.len() == 0 {
        Seq::empty()
    } else {
        let rest = app_hits(items.drop_last());
        if is_app_hit(items.last()) {
            rest.push(items.last())
        } else {
            rest
        }
    }
}

/// The app ids and names of the first [`MAX_STEAM_HITS`] app hits whose id
/// is an integer, in order (a name that is not text becomes the query).
pub open spec fn hit_list(hits: Seq<SteamItem>, query: Seq<char>) -> Seq<(Seq<char>, Seq<char>)>
    decreases hits.len(),
{
    if hits.len() == 0 {
        Seq::empty()
    } else {
        let rest = hit_list(hits.drop_last(), query);
        match hits.last().id {
            Some(i) => rest.push(
                (
                    decimal_text(i),
                    match hits.last().name {
                        Some(n) => n@,
                        None => query,
                    },
                ),
            ),
            None => rest,
        }
    }
}

/// The Steam apps a search answer offers as candidates for `query`: app id
/// and name of each usable hit among its first app hits.
pub fn steam_hits(items: &Vec<SteamItem>, query: &str) -> (r: Vec<(String, String)>)
    ensures
        ({
            let hits = app_hits(items@);
            let first = hits.take(
                if hits.len() < MAX_STEAM_HITS {
                    hits.len() as int
                } else {
                    MAX_STEAM_HITS as int
                },
            );
            r@.map_values(|p: (String, String)| (p.0@, p.1@)) == hit_list(first, query@)
        }),
{
    let mut r: Vec<(String, String)> = Vec::new();
    let mut taken: usize = 0;
    let mut i: usize = 0;
    let ghost mut hits_so_far: Seq<SteamItem> = Seq::empty();
    while i < items.len()
        invariant
            i <= items@.len(),
            hits_so_far == app_hits(items@.take(i as int)),
            taken == (if hits_so_far.len() < MAX_STEAM_HITS {
                hits_so_far.len()
            } else {
                MAX_STEAM_HITS as nat
            }),
            r@.map_values(|p: (String, String)| (p.0@, p.1@)) == hit_list(hits_so_far.take(taken as int), query@),
        decreases items@.len() - i,
    {
        assert(items@.take(i + 1).drop_last() =~= items@.take(i as int));
        assert(items@.take(i + 1).last() == items@[i as int]);
        let it = &items[i];
        let is_app = match &it.kind {
            Some(k) => crate::text::str_eq(k.as_str(), "app"),
            None => false,
        } && it.has_id;
        if is_app {
            let ghost old_hits = hits_so_far;
            proof {
                hits_so_far = hits_so_far.push(items@[i as int]);
                assert(hits_so_far.take(taken as int) =~= old_hits.take(taken as int));
            }
            if taken < MAX_STEAM_HITS {
                assert(hits_so_far.take(taken + 1) =~= hits_so_far);
                assert(hits_so_far.drop_last() =~= hits_so_far.take(taken as int));
                assert(hits_so_far.last() == items@[i as int]);
                let ghost before = r@.map_values(|p: (String, String)| (p.0@, p.1@));
                let ghost prev = hit_list(hits_so_far.take(taken as int), query@);
                assert(before == prev);
                match it.id {
                    Some(id) => {
                        let name = match &it.name {
                            Some(n) => n.clone(),
                            None => query.to_owned(),
                        };
                        let d = decimal(id);
                        let ghost entry = (d@, name@);
                        r.push((d, name));
                        assert(r@.map_values(|p: (String, String)| (p.0@, p.1@)) =~= before.push(entry));
                        assert(hit_list(hits_so_far.take(taken + 1), query@) == prev.push(entry));
                    },
                    None => {
                        assert(hit_list(hits_so_far.take(taken + 1), query@) == prev);
                    },
                }
                taken = taken + 1;
                assert(r@.map_values(|p: (String, String)| (p.0@, p.1@)) =~= hit_list(
                    hits_so_far.take(taken as int),
                    query@,
                ));
            } else {
                assert(hits_so_far.take(taken as int) =~= hits_so_far.drop_last().take(taken as int));
            }
        }
        proof {
            assert(is_app == is_app_hit(items@[i as int]));
        }
        i = i + 1;
    }
    assert(items@.take(i as int) =~= items@);
    r
}

/// A metadata candidate offered for a game (online art and how well its name
/// matches the query, 0-100).
#[derive(Debug, Clone)]
pub struct MetadataCandidate {
    pub name: String,
    pub source: String,
    pub app_id: Option<String>,
    pub logo: Option<String>,
    pub wallpaper: Option<String>,
    pub logos: Vec<String>,
    pub wallpapers: Vec<String>,
    pub confidence: u8,
    pub year: Option<String>,
}

/// The first of a list, if any.
pub open spec fn first_of(v: Seq<String>) -> Option<String> {
    if v.len() > 0 {
        Some(v[0])
    } else {
        None
    }
}

/// A candidate from one source's hit: its first logo and wallpaper lead the
/// lists of every available one.
pub fn metadata_candidate(
    name: String,
    source: String,
    app_id: String,
    logos: Vec<String>,
    wallpapers: Vec<String>,
    confidence: u8,
) -> (r: MetadataCandidate)
    ensures
        r.name == name,
        r.source == source,
        r.app_id == Some(app_id),
        r.logo == first_of(logos@),
        r.wallpaper == first_of(wallpapers@),
        r.logos@ == logos@,
        r.wallpapers@ == wallpapers@,
        r.confidence == confidence,
        r.year is None,
{
    let logo = if logos.len() > 0 {
        Some(logos[0].clone())
    } else {
        None
    };
    let wallpaper = if wallpapers.len() > 0 {
        Some(wallpapers[0].clone())
    } else {
        None
    };
    MetadataCandidate { name, source, app_id: Some(app_id), logo, wallpaper, logos, wallpapers, confidence, year: None }
}

/// Orders candidates by confidence, highest first, keeping the order of
/// equal confidences.
pub fn sort_by_confidence(cs: Vec<MetadataCandidate>) -> (r: Vec<MetadataCandidate>)
    ensures
        exists|order: Seq<usize>|
            #![trigger arranged(cs@, order)]
            stably_sorted(cs@.map_values(|c: MetadataCandidate| c.confidence as u128), order, true) && r@
                == arranged(cs@, order),
{
    let mut keys: Vec<u128> = Vec::new();
    let mut i: usize = 0;
    while i < cs.len()
        invariant
            i <= cs@.len(),
            keys@ == cs@.take(i as int).map_values(|c: MetadataCandidate| c.confidence as u128),
        decreases cs@.len() - i,
    {
        keys.push(cs[i].confidence as u128);
        i = i + 1;
        assert(keys@ =~= cs@.take(i as int).map_values(|c: MetadataCandidate| c.confidence as u128));
    }
    assert(cs@.take(i as int) =~= cs@);
    let order = stable_order(&keys, true);
    let ghost all = cs@;
    let r = permute(cs, &order);
    let ghost w = arranged(all, order@);
    r
}

/// Whether a SteamGridDB key is set: present and not blank.
pub fn sgdb_key_set(key: Option<&str>) -> (r: bool)
    ensures
        r == (key matches Some(k) && trimmed(k@).len() > 0),
{
    match key {
        Some(k) => trim_chars(&str_chars(k)).len() > 0,
        None => false,
    }
}

/// A field of a JSON object, as plain values.
pub enum JsonText {
    /// The object has no such field.
    Absent,
    /// The field is text.
    Text(String),
    /// The field is something other than text.
    Other,
}

/// The image address of one SteamGridDB artwork item: its `full` field when
/// it has one (if that is text), else its `url` field (if that is text).
pub open spec fn art_url(full: JsonText, url: JsonText) -> Option<Seq<char>> {
    match full {
        JsonText::Text(s) => Some(s@),
        JsonText::Other => None,
        JsonText::Absent => match url {
            JsonText::Text(s) => Some(s@),
            _ => None,
        },
    }
}

/// The image addresses of artwork items, in order.
pub open spec fn art_urls(items: Seq<(JsonText, JsonText)>) -> Seq<Seq<char>>
    decreases items.len(),
{
    if items.len() == 0 {
        Seq::empty()
    } else {
        let rest = art_urls(items.drop_last());
        match art_url(items.last().0, items.last().1) {
            Some(u) => rest.push(u),
            None => rest,
        }
    }
}

/// The image addresses of the first `max` artwork items of an answer.
pub fn sgdb_image_urls(items: &Vec<(JsonText, JsonText)>, max: usize) -> (r: Vec<String>)
    ensures
        r@.map_values(|s: String| s@) == art_urls(items@.take(
            if items@.len() < max {
                items@.len() as int
            } else {
                max as int
            },
        )),
{
    let n = if items.len() < max {
        items.len()
    } else {
        max
    };
    let mut r: Vec<String> = Vec::new();
    let mut i: usize = 0;
    while i < n
        invariant
            n <= items@.len(),
            i <= n,
            r@.map_values(|s: String| s@) == art_urls(items@.take(i as int)),
        decreases n - i,
    {
        assert(items@.take(i + 1).drop_last() =~= items@.take(i as int));
        assert(items@.take(i + 1).last() == items@[i as int]);
        let (full, url) = &items[i];
        let u = match full {
            JsonText::Text(s) => Some(s.clone()),
            JsonText::Other => None,
            JsonText::Absent => match url {
                JsonText::Text(s) => Some(s.clone()),
                _ => None,
            },
        };
        match u {
            Some(s) => r.push(s),
            None => {},
        }
        i = i + 1;
        assert(r@.map_values(|s: String| s@) =~= art_urls(items@.take(i as int)));
    }
    r
}

/// The SteamGridDB search request for a name.
pub fn sgdb_search_url(query: &str) -> (r: String)
    ensures
        r@ == "https://www.steamgriddb.com/api/v2/search/autocomplete/"@ + percent_encode(query.spec_bytes()),
{
    let enc = url_encode(query);
    "https://www.steamgriddb.com/api/v2/search/autocomplete/".to_owned().concat(enc.as_str())
}

/// The SteamGridDB artwork requests for a game, with how many images each
/// contributes: logos (3), heroes (2) and grids (2).
pub fn sgdb_art_requests(game_id: &str) -> (r: Vec<(String, usize)>)
    ensures
        r@.len() == 3,
        r@[0].0@ == "https://www.steamgriddb.com/api/v2/logos/game/"@ + game_id@ && r@[0].1 == 3,
        r@[1].0@ == "https://www.steamgriddb.com/api/v2/heroes/game/"@ + game_id@ && r@[1].1 == 2,
        r@[2].0@ == "https://www.steamgriddb.com/api/v2/grids/game/"@ + game_id@ && r@[2].1 == 2,
{
    let mut r: Vec<(String, usize)> = Vec::new();
    r.push(("https://www.steamgriddb.com/api/v2/logos/game/".to_owned().concat(game_id), 3));
    r.push(("https://www.steamgriddb.com/api/v2/heroes/game/".to_owned().concat(game_id), 2));
    r.push(("https://www.steamgriddb.com/api/v2/grids/game/".to_owned().concat(game_id), 2));
    r
}

/// Most SteamGridDB games offered per search.
pub const MAX_SGDB_GAMES: usize = 4;

/// The SteamGridDB games of a search answer (each item's `id` when it is an
/// integer, and its `name`, empty when not text), in order.
pub open spec fn sgdb_hit_list(items: Seq<(Option<i64>, Option<String>)>) -> Seq<(Seq<char>, Seq<char>)>
    decreases items.len(),
{
    if items.len() == 0 {
        Seq::empty()
    } else {
        let rest = sgdb_hit_list(items.drop_last());
        match items.last().0 {
            Some(i) => rest.push(
                (
                    decimal_text(i),
                    match items.last().1 {
                        Some(n) => n@,
                        None => Seq::empty(),
                    },
                ),
            ),
            None => rest,
        }
    }
}

/// The first [`MAX_SGDB_GAMES`] games of a SteamGridDB search answer, as id
/// and name.
pub fn sgdb_games(items: &Vec<(Option<i64>, Option<String>)>) -> (r: Vec<(String, String)>)
    ensures
        ({
            let all = sgdb_hit_list(items@);
            r@.map_values(|p: (String, String)| (p.0@, p.1@)) == all.take(
                if all.len() < MAX_SGDB_GAMES {
                    all.len() as int
                } else {
                    MAX_SGDB_GAMES as int
                },
            )
        }),
{
    let mut all: Vec<(String, String)> = Vec::new();
    let mut i: usize = 0;
    while i < items.len()
        invariant
            i <= items@.len(),
            all@.map_values(|p: (String, String)| (p.0@, p.1@)) == sgdb_hit_list(items@.take(i as int)),
        decreases items@.len() - i,
    {
        assert(items@.take(i + 1).drop_last() =~= items@.take(i as int));
        assert(items@.take(i + 1).last() == items@[i as int]);
        let ghost before = all@.map_values(|p: (String, String)| (p.0@, p.1@));
        match items[i].0 {
            Some(id) => {
                let name = match &items[i].1 {
                    Some(n) => n.clone(),
                    None => String::new(),
                };
                let d = decimal(id);
                let ghost entry = (d@, name@);
                all.push((d, name));
                assert(all@.map_values(|p: (String, String)| (p.0@, p.1@)) =~= before.push(entry));
            },
            None => {},
        }
        i = i + 1;
    }
    assert(items@.take(i as int) =~= items@);
    let ghost full = all@.map_values(|p: (String, String)| (p.0@, p.1@));
    all.truncate(MAX_SGDB_GAMES);
    assert(all@.map_values(|p: (String, String)| (p.0@, p.1@)) =~= full.take(
        if full.len() < MAX_SGDB_GAMES {
            full.len() as int
        } else {
            MAX_SGDB_GAMES as int
        },
    ));
    all
}

/// What a metadata lookup found for a name.
#[derive(Debug, Clone)]
pub struct MetadataResult {
    pub query: String,
    pub candidates: Vec<MetadataCandidate>,
    pub has_sgdb: bool,
    pub sgdb_count: usize,
}

/// Images the SteamGridDB candidates carry, in all.
pub open spec fn image_count(cs: Seq<MetadataCandidate>) -> int
    decreases cs.len(),
{
    if cs.len() == 0 {
        0
    } else {
        image_count(cs.drop_last()) + cs.last().logos@.len() + cs.last().wallpapers@.len()
    }
}

/// The result of a lookup: the Steam candidates, and, when a SteamGridDB key
/// is set, its candidates after them with the whole list re-sorted by
/// confidence; the count of SteamGridDB images found.
pub fn metadata_result(query: String, steam: Vec<MetadataCandidate>, key_set: bool, sgdb: Vec<MetadataCandidate>) -> (r:
    MetadataResult)
    requires
        !key_set ==> sgdb@.len() == 0,
        image_count(sgdb@) <= usize::MAX,
    ensures
        r.query == query,
        r.has_sgdb == key_set,
        r.sgdb_count == image_count(sgdb@),
        !key_set ==> r.candidates@ == steam@,
        key_set ==> exists|order: Seq<usize>|
            #![trigger arranged(steam@ + sgdb@, order)]
            stably_sorted((steam@ + sgdb@).map_values(|c: MetadataCandidate| c.confidence as u128), order, true)
                && r.candidates@ == arranged(steam@ + sgdb@, order),
{
    let mut count: usize = 0;
    let mut i: usize = 0;
    while i < sgdb.len()
        invariant
            i <= sgdb@.len(),
            image_count(sgdb@) <= usize::MAX,
            count == image_count(sgdb@.take(i as int)),
        decreases sgdb@.len() - i,
    {
        assert(sgdb@.take(i + 1).drop_last() =~= sgdb@.take(i as int));
        proof {
            lemma_image_count_prefix(sgdb@, i + 1);
        }
        count = count + sgdb[i].logos.len() + sgdb[i].wallpapers.len();
        i = i + 1;
    }
    assert(sgdb@.take(i as int) =~= sgdb@);
    if !key_set {
        return MetadataResult { query, candidates: steam, has_sgdb: false, sgdb_count: count };
    }
    let ghost both = steam@ + sgdb@;
    let mut all = steam;
    let mut rest = sgdb;
    all.append(&mut rest);
    assert(all@ =~= both);
    let candidates = sort_by_confidence(all);
    MetadataResult { query, candidates, has_sgdb: true, sgdb_count: count }
}

proof fn lemma_image_count_prefix(cs: Seq<MetadataCandidate>, n: int)
    requires
        0 <= n <= cs.len(),
    ensures
        image_count(cs.take(n)) <= image_count(cs),
    decreases cs.len(),
{
    if n < cs.len() {
        assert(cs.drop_last().take(n) =~= cs.take(n));
        lemma_image_count_prefix(cs.drop_last(), n);
    } else {
        assert(cs.take(n) =~= cs);
    }
}

} // verus!
