//! The routing decision for `/proxy`: classify the client's continent into a
//! region bucket and select the upstream proxy endpoint for that bucket.

use vstd::prelude::*;

use crate::app::AppState;
use crate::telemetry::{inc_spec, Metrics};

verus! {

/// The two upstream regions served; every request maps to exactly one.
#[derive(Clone, Copy, PartialEq, Eq, Structural, Debug)]
pub enum RegionBucket {
    US,
    EU,
}

/// Continent codes routed to the US upstream; everything else goes to the EU.
pub open spec fn classify_spec(continent: Option<Seq<char>>) -> RegionBucket {
    if continent == Some("NA"@) || continent == Some("SA"@) {
        RegionBucket::US
    } else {
        RegionBucket::EU
    }
}

pub open spec fn us_proxy() -> Seq<char> {
    "proxy-us.ambient.run:7000"@
}

pub open spec fn eu_proxy() -> Seq<char> {
    "proxy-eu.ambient.run:7000"@
}

pub open spec fn select_spec(bucket: RegionBucket) -> Seq<char> {
    match bucket {
        RegionBucket::US => us_proxy(),
        RegionBucket::EU => eu_proxy(),
    }
}

/// Maps a continent code to a region bucket: `NA` and `SA` route to `US`,
/// every other code and an absent code route to `EU`. Total: no error path.
pub fn classify(continent: &Option<String>) -> (bucket: RegionBucket)
    ensures
        bucket == classify_spec(continent.deep_view()),
{
    match continent {
        Some(code) => {
            if *code == String::from_str("NA") || *code == String::from_str("SA") {
                RegionBucket::US
            } else {
                RegionBucket::EU
            }
        },
        None => RegionBucket::EU,
    }
}

/// Maps a region bucket to the address of its upstream proxy endpoint.
/// A total table lookup over the closed enumeration: no failure mode.
pub fn select(bucket: RegionBucket) -> (addr: &'static str)
    ensures
        addr@ == select_spec(bucket),
{
    match bucket {
        RegionBucket::US => "proxy-us.ambient.run:7000",
        RegionBucket::EU => "proxy-eu.ambient.run:7000",
    }
}

/// The Unicode `White_Space` characters, the set `str::trim` removes.
pub open spec fn is_space(c: char) -> bool {
    c == ' ' || c == '\t' || c == '\n' || c == '\u{000B}' || c == '\u{000C}' || c == '\r'
        || c == '\u{0085}' || c == '\u{00A0}' || c == '\u{1680}' || c == '\u{2000}'
        || c == '\u{2001}' || c == '\u{2002}' || c == '\u{2003}' || c == '\u{2004}'
        || c == '\u{2005}' || c == '\u{2006}' || c == '\u{2007}' || c == '\u{2008}'
        || c == '\u{2009}' || c == '\u{200A}' || c == '\u{2028}' || c == '\u{2029}'
        || c == '\u{202F}' || c == '\u{205F}' || c == '\u{3000}'
}

fn is_space_char(c: char) -> (r: bool)
    ensures
        r == is_space(c),
{
    match c {
        ' ' | '\t' | '\n' | '\u{000B}' | '\u{000C}' | '\r' | '\u{0085}' | '\u{00A0}'
        | '\u{1680}' | '\u{2000}' | '\u{2001}' | '\u{2002}' | '\u{2003}' | '\u{2004}'
        | '\u{2005}' | '\u{2006}' | '\u{2007}' | '\u{2008}' | '\u{2009}' | '\u{200A}'
        | '\u{2028}' | '\u{2029}' | '\u{202F}' | '\u{205F}' | '\u{3000}' => true,
        _ => false,
    }
}

pub open spec fn trim_left(s: Seq<char>) -> Seq<char>
    decreases s.len(),
{
    if s.len() > 0 && is_space(s[0]) {
        trim_left(s.drop_first())
    } else {
        s
    }
}

pub open spec fn trim_right(s: Seq<char>) -> Seq<char>
    decreases s.len(),
{
    if s.len() > 0 && is_space(s.last()) {
        trim_right(s.drop_last())
    } else {
        s
    }
}

/// What `str::trim` leaves: the string without leading and trailing whitespace.
pub open spec fn trim_spec(s: Seq<char>) -> Seq<char> {
    trim_right(trim_left(s))
}

/// The User-Agent prefix that identifies the client and precedes its version.
pub open spec fn ua_prefix() -> Seq<char> {
    "ambient_network/"@
}

/// The version label a User-Agent yields: the trimmed remainder after the
/// client prefix, or empty when the prefix is missing.
pub open spec fn extract_version_spec(ua: Seq<char>) -> Seq<char> {
    if ua.len() >= ua_prefix().len() && ua.subrange(0, ua_prefix().len() as int) == ua_prefix() {
        trim_spec(ua.subrange(ua_prefix().len() as int, ua.len() as int))
    } else {
        Seq::<char>::empty()
    }
}

proof fn lemma_trim_left_at(s: Seq<char>, i: int)
    requires
        0 <= i <= s.len(),
        forall|k: int| 0 <= k < i ==> is_space(s[k]),
        i == s.len() || !is_space(s[i]),
    ensures
        trim_left(s) == s.subrange(i, s.len() as int),
    decreases i,
{
    if i == 0 {
        assert(s.subrange(0, s.len() as int) =~= s);
    } else {
        let rest = s.drop_first();
        lemma_trim_left_at(rest, i - 1);
        assert(rest.subrange(i - 1, rest.len() as int) =~= s.subrange(i, s.len() as int));
    }
}

proof fn lemma_trim_right_at(s: Seq<char>, j: int)
    requires
        0 <= j <= s.len(),
        forall|k: int| j <= k < s.len() ==> is_space(s[k]),
        j == 0 || !is_space(s[j - 1]),
    ensures
        trim_right(s) == s.subrange(0, j),
    decreases s.len() - j,
{
    if j == s.len() {
        assert(s.subrange(0, s.len() as int) =~= s);
    } else {
        let rest = s.drop_last();
        lemma_trim_right_at(rest, j);
        assert(rest.subrange(0, j) =~= s.subrange(0, j));
    }
}

/// Removes leading and trailing whitespace, as `str::trim` does.
fn trim(s: &str) -> (t: String)
    ensures
        t@ == trim_spec(s@),
{
    let n = s.unicode_len();
    let mut i: usize = 0;
    while i < n && is_space_char(s.get_char(i))
        invariant
            0 <= i <= n,
            n == s@.len(),
            forall|k: int| 0 <= k < i ==> is_space(s@[k]),
        decreases n - i,
    {
        i = i + 1;
    }
    let mut j: usize = n;
    while j > i && is_space_char(s.get_char(j - 1))
        invariant
            i <= j <= n,
            n == s@.len(),
            forall|k: int| j <= k < n ==> is_space(s@[k]),
        decreases j,
    {
        j = j - 1;
    }
    let t = s.substring_char(i, j);
    proof {
        lemma_trim_left_at(s@, i as int);
        let mid = s@.subrange(i as int, s@.len() as int);
        if j == i {
            lemma_trim_right_at(mid, 0);
        } else {
            lemma_trim_right_at(mid, j - i);
        }
        assert(mid.subrange(0, j - i) =~= s@.subrange(i as int, j as int));
    }
    String::from_str(t)
}

/// The country label a request is counted under: the resolved country code,
/// or the unknown-country sentinel when none was resolved.
pub open spec fn country_label(country: Option<Seq<char>>) -> Seq<char> {
    match country {
        Some(code) => code,
        None => "ZZ"@,
    }
}

/// Extracts the client-reported version from a User-Agent string: the
/// whitespace-trimmed remainder after `ambient_network/` when that prefix is
/// present, and the empty string otherwise. Never signals an error.
pub fn extract_version(user_agent: &str) -> (version: String)
    ensures
        version@ == extract_version_spec(user_agent@),
{
    proof {
        reveal_strlit("ambient_network/");
    }
    let n = user_agent.unicode_len();
    if n < 16 {
        return String::new();
    }
    let head = user_agent.substring_char(0, 16);
    if !(String::from_str(head) == String::from_str("ambient_network/")) {
        return String::new();
    }
    let rest = user_agent.substring_char(16, n);
    trim(rest)
}

/// The whole decision for one request whose geographic record is already
/// resolved: counts the request under (country, client version) and returns
/// the upstream proxy address for the continent's region bucket.
pub fn route_with_geo(
    metrics: &mut Metrics,
    continent: &Option<String>,
    country: &Option<String>,
    user_agent: &str,
) -> (proxy: &'static str)
    requires
        old(metrics).wf(),
    ensures
        final(metrics).wf(),
        proxy@ == select_spec(classify_spec(continent.deep_view())),
        final(metrics)@ == inc_spec(
            old(metrics)@,
            (country_label(country.deep_view()), extract_version_spec(user_agent@)),
        ),
{
    let version = extract_version(user_agent);
    let country_code = match country {
        Some(code) => code.clone(),
        None => String::from_str("ZZ"),
    };
    metrics.inc_proxy_requests(country_code, version);
    let bucket = classify(continent);
    select(bucket)
}

/// Handles one `/proxy` request: resolves the peer address through the GeoIP
/// resolver when one is available, counts the request, and returns the
/// upstream proxy address. Without a resolver every request routes to the EU
/// upstream and is counted under the unknown country.
pub fn get_proxy(app_state: &mut AppState, peer_ip: &str, user_agent: &str) -> (proxy: &'static str)
    requires
        old(app_state).metrics.wf(),
    ensures
        final(app_state).metrics.wf(),
        final(app_state).ip_reader == old(app_state).ip_reader,
        proxy@ == us_proxy() || proxy@ == eu_proxy(),
        old(app_state).ip_reader is None ==> proxy@ == eu_proxy()
            && final(app_state).metrics@ == inc_spec(
                old(app_state).metrics@,
                ("ZZ"@, extract_version_spec(user_agent@)),
            ),
        exists|geo: (Option<Seq<char>>, Option<Seq<char>>)|
            proxy@ == select_spec(classify_spec(geo.0)) && final(app_state).metrics@ == inc_spec(
                old(app_state).metrics@,
                (country_label(geo.1), extract_version_spec(user_agent@)),
            ),
{
    let (continent, country) = match &app_state.ip_reader {
        Some(reader) => reader.lookup_continent_and_country_code(peer_ip),
        None => (None, None),
    };
    let proxy = route_with_geo(&mut app_state.metrics, &continent, &country, user_agent);
    proof {
        let geo = (continent.deep_view(), country.deep_view());
        assert(proxy@ == select_spec(classify_spec(geo.0)) && app_state.metrics@ == inc_spec(
            old(app_state).metrics@,
            (country_label(geo.1), extract_version_spec(user_agent@)),
        ));
    }
    proxy
}

} // verus!
