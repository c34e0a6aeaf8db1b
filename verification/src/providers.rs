//! Some common tile map providers: their URL formats and attributions.
//!
//! URLs are built by verified decimal formatting, so each provider's URL
//! format is pinned down character by character in its contract.

use vstd::prelude::*;
use vstd::string::StringExecFns;

use crate::mercator::TileId;

verus! {

/// Google's tile layer flavors.
#[derive(Debug, Clone, Copy, PartialEq, Eq, Structural)]
pub enum MapType {
    Standart,
    Satellite,
    Hybrid,
    Roads,
    Terrain,
}

/// The supported tile servers.
#[derive(Debug, Clone, Copy, PartialEq, Eq, Structural)]
pub enum Providers {
    /// <https://www.openstreetmap.org/about>
    OpenStreetMap,
    /// Orthophotomap layer from Poland's Geoportal.
    /// <https://www.geoportal.gov.pl/uslugi/usluga-przegladania-wms>
    Geoportal,
    /// <https://www.google.com/maps/about>
    Google,
}

/// Required credit for a tile data source: a display text and a link URL.
#[derive(Debug, Clone, Copy)]
pub struct Attribution {
    pub text: &'static str,
    pub url: &'static str,
}

/// A tile server capability: produces a fetch URL and an attribution for a
/// tile. The built-in servers implement it; the closed sum [`Provider`] is
/// what the verified download pipeline works with.
pub trait TileSource {
    fn tile_url(&self, tile_id: TileId) -> String;

    fn attribution(&self) -> Attribution;
}

/// The decimal digit character for `d`.
pub open spec fn digit_char(d: int) -> char {
    if d == 0 {
        '0'
    } else if d == 1 {
        '1'
    } else if d == 2 {
        '2'
    } else if d == 3 {
        '3'
    } else if d == 4 {
        '4'
    } else if d == 5 {
        '5'
    } else if d == 6 {
        '6'
    } else if d == 7 {
        '7'
    } else if d == 8 {
        '8'
    } else {
        '9'
    }
}

/// The decimal digits of `n`, most significant first.
pub open spec fn dec_digits(n: int) -> Seq<char>
    recommends
        n >= 0,
    decreases n,
{
    if n < 10 {
        seq![digit_char(n)]
    } else {
        dec_digits(n / 10).push(digit_char(n % 10))
    }
}

/// The one-character string of a decimal digit.
fn digit_str(d: u32) -> (r: &'static str)
    requires
        d < 10,
    ensures
        r@ == seq![digit_char(d as int)],
{
    proof {
        reveal_strlit("0");
        reveal_strlit("1");
        reveal_strlit("2");
        reveal_strlit("3");
        reveal_strlit("4");
        reveal_strlit("5");
        reveal_strlit("6");
        reveal_strlit("7");
        reveal_strlit("8");
        reveal_strlit("9");
    }
    let r: &'static str = if d == 0 {
        "0"
    } else if d == 1 {
        "1"
    } else if d == 2 {
        "2"
    } else if d == 3 {
        "3"
    } else if d == 4 {
        "4"
    } else if d == 5 {
        "5"
    } else if d == 6 {
        "6"
    } else if d == 7 {
        "7"
    } else if d == 8 {
        "8"
    } else {
        "9"
    };
    proof {
        assert(r@ =~= seq![digit_char(d as int)]);
    }
    r
}

/// Append the decimal representation of `n` to `s`.
fn push_decimal(s: &mut String, n: u32)
    ensures
        final(s)@ == old(s)@ + dec_digits(n as int),
    decreases n,
{
    if n >= 10 {
        push_decimal(s, n / 10);
    }
    let d = digit_str(n % 10);
    s.append(d);
    proof {
        if n < 10 {
            assert(n % 10 == n);
        }
        assert(s@ =~= old(s)@ + dec_digits(n as int));
    }
}

/// The OpenStreetMap tile URL: `https://tile.openstreetmap.org/{zoom}/{x}/{y}.png`.
pub open spec fn osm_url_chars(id: TileId) -> Seq<char> {
    "https://tile.openstreetmap.org/"@ + dec_digits(id.zoom as int) + "/"@ + dec_digits(id.x as int)
        + "/"@ + dec_digits(id.y as int) + ".png"@
}

/// The Geoportal WMTS GetTile URL. Note the row/column order: `TILEROW` is
/// the tile's `y` and `TILECOL` its `x`.
pub open spec fn geoportal_url_chars(id: TileId) -> Seq<char> {
    "https://mapy.geoportal.gov.pl/wss/service/PZGIK/ORTO/WMTS/StandardResolution?&SERVICE=WMTS&REQUEST=GetTile&VERSION=1.0.0&LAYER=ORTOFOTOMAPA&TILEMATRIXSET=EPSG:3857&TILEMATRIX=EPSG:3857:"@
        + dec_digits(id.zoom as int) + "&TILEROW="@ + dec_digits(id.y as int) + "&TILECOL="@
        + dec_digits(id.x as int)
}

/// The Google tile URL for a layer letter:
/// `http://mt1.google.com/vt/lyrs={letter}&x={x}&y={y}&z={zoom}`.
pub open spec fn google_url_chars(letter: char, id: TileId) -> Seq<char> {
    "http://mt1.google.com/vt/lyrs="@ + seq![letter] + "&x="@ + dec_digits(id.x as int) + "&y="@
        + dec_digits(id.y as int) + "&z="@ + dec_digits(id.zoom as int)
}

/// The tile-layer letter Google uses for each map type.
pub open spec fn layer_letter(map_type: MapType) -> char {
    match map_type {
        MapType::Standart => 'm',
        MapType::Satellite => 's',
        MapType::Hybrid => 'y',
        MapType::Roads => 'h',
        MapType::Terrain => 'p',
    }
}

/// The Google tile server, with its type-to-letter mapping fixed at
/// construction.
#[derive(Debug, Clone, Copy, PartialEq, Eq, Structural)]
pub struct Google {
    t: char,
}

impl Google {
    /// The layer letter this server was built with.
    pub closed spec fn letter(self) -> char {
        self.t
    }

    #[verifier::type_invariant]
    spec fn inv(self) -> bool {
        self.t == 'm' || self.t == 's' || self.t == 'y' || self.t == 'h' || self.t == 'p'
    }

    /// Pick the tile-layer letter for the requested map type.
    pub fn new(map_type: MapType) -> (r: Google)
        ensures
            r.letter() == layer_letter(map_type),
    {
        let t: char = match map_type {
            MapType::Standart => 'm',
            MapType::Satellite => 's',
            MapType::Hybrid => 'y',
            MapType::Roads => 'h',
            MapType::Terrain => 'p',
        };
        Google { t }
    }
}

/// The one-character string of a Google layer letter.
fn google_letter_str(g: &Google) -> (r: &'static str)
    ensures
        r@ == seq![g.letter()],
{
    proof {
        use_type_invariant(g);
        reveal_strlit("m");
        reveal_strlit("s");
        reveal_strlit("y");
        reveal_strlit("h");
        reveal_strlit("p");
    }
    let r: &'static str = if g.t == 'm' {
        "m"
    } else if g.t == 's' {
        "s"
    } else if g.t == 'y' {
        "y"
    } else if g.t == 'h' {
        "h"
    } else {
        "p"
    };
    proof {
        assert(r@ =~= seq![g.letter()]);
    }
    r
}

/// A configured tile server: the closed sum over the supported providers.
///
/// The provider set is fixed and known at compile time, so the polymorphic
/// [`TileSource`] capability is modelled as this sum type; each variant's
/// URL format is stated exactly in [`Provider::tile_url`].
#[derive(Debug, Clone, Copy, PartialEq, Eq, Structural)]
pub enum Provider {
    OpenStreetMap,
    Geoportal,
    Google(Google),
}

impl Provider {
    /// The URL this provider fetches a tile from.
    pub open spec fn spec_tile_url(self, id: TileId) -> Seq<char> {
        match self {
            Provider::OpenStreetMap => osm_url_chars(id),
            Provider::Geoportal => geoportal_url_chars(id),
            Provider::Google(g) => google_url_chars(g.letter(), id),
        }
    }

    /// The attribution text this provider requires.
    pub open spec fn spec_attribution_text(self) -> Seq<char> {
        match self {
            Provider::OpenStreetMap => "OpenStreetMap contributors"@,
            Provider::Geoportal => "Główny Urząd Geodezji i Kartografii"@,
            Provider::Google(_) => "Google Maps"@,
        }
    }

    /// The attribution link this provider requires.
    pub open spec fn spec_attribution_url(self) -> Seq<char> {
        match self {
            Provider::OpenStreetMap => "https://www.openstreetmap.org/copyright"@,
            Provider::Geoportal => "https://www.geoportal.gov.pl/"@,
            Provider::Google(_) => "https://www.google.com/maps/"@,
        }
    }

    /// Build the fetch URL for `tile_id`, character by character as
    /// [`Provider::spec_tile_url`] states it.
    pub fn tile_url(&self, tile_id: TileId) -> (r: String)
        ensures
            r@ == self.spec_tile_url(tile_id),
    {
        match self {
            Provider::OpenStreetMap => osm_tile_url(tile_id),
            Provider::Geoportal => geoportal_tile_url(tile_id),
            Provider::Google(g) => google_tile_url(g, tile_id),
        }
    }

    /// The attribution to display while this provider's tiles are shown.
    pub fn attribution(&self) -> (r: Attribution)
        ensures
            r.text@ == self.spec_attribution_text(),
            r.url@ == self.spec_attribution_url(),
    {
        match self {
            Provider::OpenStreetMap => Attribution {
                text: "OpenStreetMap contributors",
                url: "https://www.openstreetmap.org/copyright",
            },
            Provider::Geoportal => Attribution {
                text: "Główny Urząd Geodezji i Kartografii",
                url: "https://www.geoportal.gov.pl/",
            },
            Provider::Google(_) => Attribution {
                text: "Google Maps",
                url: "https://www.google.com/maps/",
            },
        }
    }
}

/// Build the OpenStreetMap URL of a tile.
fn osm_tile_url(id: TileId) -> (r: String)
    ensures
        r@ == osm_url_chars(id),
{
    let mut s = String::new();
    s.append("https://tile.openstreetmap.org/");
    push_decimal(&mut s, id.zoom as u32);
    s.append("/");
    push_decimal(&mut s, id.x);
    s.append("/");
    push_decimal(&mut s, id.y);
    s.append(".png");
    proof {
        assert(s@ =~= osm_url_chars(id));
    }
    s
}

/// Build the Geoportal WMTS URL of a tile (row and column swapped).
fn geoportal_tile_url(id: TileId) -> (r: String)
    ensures
        r@ == geoportal_url_chars(id),
{
    let mut s = String::new();
    s.append(
        "https://mapy.geoportal.gov.pl/wss/service/PZGIK/ORTO/WMTS/StandardResolution?&SERVICE=WMTS&REQUEST=GetTile&VERSION=1.0.0&LAYER=ORTOFOTOMAPA&TILEMATRIXSET=EPSG:3857&TILEMATRIX=EPSG:3857:",
    );
    push_decimal(&mut s, id.zoom as u32);
    s.append("&TILEROW=");
    push_decimal(&mut s, id.y);
    s.append("&TILECOL=");
    push_decimal(&mut s, id.x);
    proof {
        assert(s@ =~= geoportal_url_chars(id));
    }
    s
}

/// Build the Google URL of a tile for the configured layer.
fn google_tile_url(g: &Google, id: TileId) -> (r: String)
    ensures
        r@ == google_url_chars(g.letter(), id),
{
    let mut s = String::new();
    s.append("http://mt1.google.com/vt/lyrs=");
    s.append(google_letter_str(g));
    s.append("&x=");
    push_decimal(&mut s, id.x);
    s.append("&y=");
    push_decimal(&mut s, id.y);
    s.append("&z=");
    push_decimal(&mut s, id.zoom as u32);
    proof {
        assert(s@ =~= google_url_chars(g.letter(), id));
    }
    s
}

/// The OpenStreetMap tile server.
/// <https://www.openstreetmap.org/about>
pub struct OpenStreetMap;

impl TileSource for OpenStreetMap {
    fn tile_url(&self, tile_id: TileId) -> String {
        osm_tile_url(tile_id)
    }

    fn attribution(&self) -> Attribution {
        Attribution {
            text: "OpenStreetMap contributors",
            url: "https://www.openstreetmap.org/copyright",
        }
    }
}

/// Orthophotomap layer from Poland's Geoportal.
/// <https://www.geoportal.gov.pl/uslugi/usluga-przegladania-wms>
pub struct Geoportal;

impl TileSource for Geoportal {
    fn tile_url(&self, tile_id: TileId) -> String {
        geoportal_tile_url(tile_id)
    }

    fn attribution(&self) -> Attribution {
        Attribution {
            text: "Główny Urząd Geodezji i Kartografii",
            url: "https://www.geoportal.gov.pl/",
        }
    }
}

impl TileSource for Google {
    fn tile_url(&self, tile_id: TileId) -> String {
        google_tile_url(self, tile_id)
    }

    fn attribution(&self) -> Attribution {
        Attribution { text: "Google Maps", url: "https://www.google.com/maps/" }
    }
}

/// Constructor function for map providers.
pub fn new(provider: Providers, map_type: MapType) -> (r: Provider)
    ensures
        provider == Providers::OpenStreetMap ==> r == Provider::OpenStreetMap,
        provider == Providers::Geoportal ==> r == Provider::Geoportal,
        provider == Providers::Google ==> (r matches Provider::Google(g) && g.letter()
            == layer_letter(map_type)),
{
    match provider {
        Providers::OpenStreetMap => Provider::OpenStreetMap,
        Providers::Geoportal => Provider::Geoportal,
        Providers::Google => Provider::Google(Google::new(map_type)),
    }
}

} // verus!
