use std::collections::HashMap;
use vstd::prelude::*;
use vstd::string::*;
use vstd::std_specs::iter::IteratorSpec;

use crate::market_data::{Symbol, TimeInterval};
use crate::text::{decimal, decimal_string, to_upper, uppercase};

verus! {

broadcast use vstd::string::group_string_axioms;

/// The escape of one character in a query component: space, `&`, `=`, `?`
/// and `#` become `%20`, `%26`, `%3D`, `%3F` and `%23`; others stay.
pub open spec fn encode_char(c: char) -> Seq<char> {
    if c == ' ' {
        "%20"@
    } else if c == '&' {
        "%26"@
    } else if c == '=' {
        "%3D"@
    } else if c == '?' {
        "%3F"@
    } else if c == '#' {
        "%23"@
    } else {
        seq![c]
    }
}

/// `s` with each character escaped by `encode_char`.
pub open spec fn url_encoded(s: Seq<char>) -> Seq<char>
    decreases s.len(),
{
    if s.len() == 0 {
        Seq::empty()
    } else {
        url_encoded(s.drop_last()) + encode_char(s.last())
    }
}

/// `key=value` pairs joined by `&`.
pub open spec fn joined_pairs(pairs: Seq<(Seq<char>, Seq<char>)>) -> Seq<char>
    decreases pairs.len(),
{
    if pairs.len() == 0 {
        Seq::empty()
    } else if pairs.len() == 1 {
        pairs[0].0 + "="@ + pairs[0].1
    } else {
        joined_pairs(pairs.drop_last()) + "&"@ + pairs.last().0 + "="@ + pairs.last().1
    }
}

/// `base`, followed by `?` and the joined pairs when there are any.
pub open spec fn url_with_pairs(base: Seq<char>, pairs: Seq<(Seq<char>, Seq<char>)>) -> Seq<char> {
    if pairs.len() == 0 {
        base
    } else {
        base + "?"@ + joined_pairs(pairs)
    }
}

/// `t` occurs in `s` at some position.
pub open spec fn occurs_in(t: Seq<char>, s: Seq<char>) -> bool {
    exists|o: int| 0 <= o && o + t.len() <= s.len() && #[trigger] s.subrange(o, o + t.len()) == t
}

proof fn lemma_occurs_in_self(t: Seq<char>)
    ensures
        occurs_in(t, t),
{
    let z: int = 0;
    assert(t.subrange(z, z + t.len()) =~= t);
}

proof fn lemma_occurs_in_prefix(t: Seq<char>, a: Seq<char>, b: Seq<char>)
    requires
        occurs_in(t, a),
    ensures
        occurs_in(t, a + b),
{
    let o = choose|o: int| 0 <= o && o + t.len() <= a.len() && #[trigger] a.subrange(o, o + t.len()) == t;
    assert((a + b).subrange(o, o + t.len()) =~= a.subrange(o, o + t.len()));
}

proof fn lemma_occurs_in_suffix(t: Seq<char>, a: Seq<char>, b: Seq<char>)
    requires
        occurs_in(t, b),
    ensures
        occurs_in(t, a + b),
{
    let o = choose|o: int| 0 <= o && o + t.len() <= b.len() && #[trigger] b.subrange(o, o + t.len()) == t;
    let o2 = a.len() + o;
    assert((a + b).subrange(o2, o2 + t.len()) =~= b.subrange(o, o + t.len()));
}

/// The text of one pair, `key=value`.
pub open spec fn pair_text(p: (Seq<char>, Seq<char>)) -> Seq<char> {
    p.0 + "="@ + p.1
}

proof fn lemma_joined_split(pairs: Seq<(Seq<char>, Seq<char>)>)
    requires
        pairs.len() > 1,
    ensures
        joined_pairs(pairs) == joined_pairs(pairs.drop_last()) + ("&"@ + pair_text(pairs.last())),
        joined_pairs(pairs) == (joined_pairs(pairs.drop_last()) + "&"@) + pair_text(pairs.last()),
{
    let j = joined_pairs(pairs.drop_last());
    let k = pairs.last().0;
    let v = pairs.last().1;
    assert(j + "&"@ + k + "="@ + v =~= j + ("&"@ + (k + "="@ + v)));
    assert(j + "&"@ + k + "="@ + v =~= (j + "&"@) + (k + "="@ + v));
}

/// Every pair appears in the joined query as `key=value`.
pub proof fn law_query_holds_each_pair(pairs: Seq<(Seq<char>, Seq<char>)>, i: int)
    requires
        0 <= i < pairs.len(),
    ensures
        occurs_in(pair_text(pairs[i]), joined_pairs(pairs)),
    decreases pairs.len(),
{
    let t = pair_text(pairs[i]);
    let n = pairs.len() as int;
    if n == 1 {
        lemma_occurs_in_self(t);
    } else {
        lemma_joined_split(pairs);
        let d = pairs.drop_last();
        if i == n - 1 {
            lemma_occurs_in_self(t);
            lemma_occurs_in_suffix(t, joined_pairs(d) + "&"@, t);
        } else {
            assert(d[i] == pairs[i]);
            law_query_holds_each_pair(d, i);
            lemma_occurs_in_prefix(t, joined_pairs(d), "&"@ + pair_text(pairs.last()));
        }
    }
}

/// The text views of string pairs.
pub open spec fn pair_views(pairs: Seq<(String, String)>) -> Seq<(Seq<char>, Seq<char>)> {
    pairs.map_values(|p: (String, String)| (p.0@, p.1@))
}

/// The entries of a map of parameters, in the order `HashMap::iter` visits them
/// (keys and values cloned).
///
/// `HashMap::iter` visits every entry once; the order depends on the map's
/// hasher, so nothing is said of it: each pair is an entry of the map, every
/// key of the map comes once, and there are as many pairs as entries.
#[verifier::external_body]
fn map_entries(params: &HashMap<String, String>) -> (r: Vec<(String, String)>)
    ensures
        lists_entries(params@, r@),
{
    params.iter().map(|(k, v)| (k.clone(), v.clone())).collect()
}

/// `p` is a key of `m` with its value.
pub open spec fn is_entry(m: Map<String, String>, p: (String, String)) -> bool {
    m.contains_key(p.0) && m[p.0] == p.1
}

/// The pairs are the entries of `m`, each key of `m` once.
pub open spec fn lists_entries(m: Map<String, String>, pairs: Seq<(String, String)>) -> bool {
    &&& pairs.len() == m.len()
    &&& forall|i: int| 0 <= i < pairs.len() ==> is_entry(m, #[trigger] pairs[i])
    &&& forall|i: int, j: int| 0 <= i < j < pairs.len() ==> (#[trigger] pairs[i]).0 != (#[trigger] pairs[j]).0
    &&& forall|k: String| #[trigger] m.contains_key(k) ==> exists|i: int| 0 <= i < pairs.len() && (#[trigger] pairs[i]).0 == k
}

/// Helpers for HTTP requests.
#[derive(Debug, Clone, Copy)]
pub struct HttpUtils;

impl HttpUtils {
    /// Whether an HTTP status is a success (2xx).
    pub fn is_success_status(status: u16) -> (b: bool)
        ensures
            b == (200 <= status < 300),
    {
        200 <= status && status < 300
    }

    /// `base_url`, followed by `?` and the `key=value` pairs joined by `&`
    /// when there are any, in the order given.
    pub fn build_url_from_pairs(base_url: &str, pairs: &Vec<(String, String)>) -> (r: String)
        ensures
            r@ == url_with_pairs(base_url@, pair_views(pairs@)),
    {
        let mut url = String::from_str(base_url);
        let n = pairs.len();
        if n == 0 {
            return url;
        }
        url.append("?");
        let ghost views = pair_views(pairs@);
        let mut i: usize = 0;
        while i < n
            invariant
                i <= n,
                n == pairs@.len(),
                n > 0,
                views == pair_views(pairs@),
                i == 0 ==> url@ == base_url@ + "?"@,
                i > 0 ==> url@ == base_url@ + "?"@ + joined_pairs(views.take(i as int)),
            decreases n - i,
        {
            if i > 0 {
                url.append("&");
            }
            url.append(pairs[i].0.as_str());
            url.append("=");
            url.append(pairs[i].1.as_str());
            proof {
                let t = views.take(i + 1);
                assert(t.drop_last() =~= views.take(i as int));
                assert(t.last() == (pairs@[i as int].0@, pairs@[i as int].1@));
                if i == 0 {
                    assert(t.len() == 1);
                }
            }
            i += 1;
        }
        proof {
            assert(views.take(n as int) =~= views);
        }
        url
    }

    /// `base_url` with the parameters as a query: unchanged when there are
    /// none, else followed by `?` and the `key=value` pairs joined by `&`,
    /// every entry once, in the map's visiting order.
    pub fn build_url_with_params(base_url: &str, params: &HashMap<String, String>) -> (r: String)
        ensures
            params@.is_empty() ==> r@ == base_url@,
            exists|pairs: Seq<(String, String)>|
                lists_entries(params@, pairs) && r@ == url_with_pairs(base_url@, pair_views(pairs)),
            forall|k: String|
                #[trigger] params@.contains_key(k) ==> occurs_in(pair_text((k@, params@[k]@)), r@),
    {
        let pairs = map_entries(params);
        if pairs.len() == 0 {
            let r = String::from_str(base_url);
            proof {
                assert(lists_entries(params@, pairs@) && r@ == url_with_pairs(base_url@, pair_views(pairs@)));
            }
            return r;
        }
        let r = Self::build_url_from_pairs(base_url, &pairs);
        proof {
            assert(lists_entries(params@, pairs@) && r@ == url_with_pairs(base_url@, pair_views(pairs@)));
            let views = pair_views(pairs@);
            assert forall|k: String| #[trigger] params@.contains_key(k) implies occurs_in(
                pair_text((k@, params@[k]@)),
                r@,
            ) by {
                let i = choose|i: int| 0 <= i < pairs@.len() && (#[trigger] pairs@[i]).0 == k;
                assert(is_entry(params@, pairs@[i]));
                assert(views[i] == (k@, params@[k]@));
                law_query_holds_each_pair(views, i);
                lemma_occurs_in_suffix(pair_text(views[i]), base_url@ + "?"@, joined_pairs(views));
            }
        }
        r
    }

    /// Escape the characters of a query component (see `encode_char`).
    pub fn url_encode(input: &str) -> (r: String)
        ensures
            r@ == url_encoded(input@),
    {
        let mut out = String::new();
        for c in it: input.chars()
            invariant
                it.seq() == input@,
                out@ == url_encoded(input@.take(it.index() as int)),
        {
            proof {
                let t = input@.take(it.index() + 1);
                assert(t.drop_last() =~= input@.take(it.index() as int));
                assert(t.last() == c);
            }
            if c == ' ' {
                out.append("%20");
            } else if c == '&' {
                out.append("%26");
            } else if c == '=' {
                out.append("%3D");
            } else if c == '?' {
                out.append("%3F");
            } else if c == '#' {
                out.append("%23");
            } else {
                let one = push_char(String::new(), c);
                out.append(one.as_str());
            }
        }
        proof {
            assert(input@.take(input@.len() as int) =~= input@);
        }
        out
    }
}

/// `s` with `c` appended: calls `String::push`.
#[verifier::external_body]
fn push_char(s: String, c: char) -> (r: String)
    ensures
        r@ == s@.push(c),
{
    let mut s = s;
    s.push(c);
    s
}

/// Address of `endpoint` relative to `base_url`: an endpoint starting with
/// `http` is used as it is; otherwise the base without its trailing slashes
/// and the endpoint without its leading slashes are joined by one slash.
pub open spec fn spec_endpoint_url(base_url: Seq<char>, endpoint: Seq<char>) -> Seq<char> {
    if endpoint.len() >= 4 && endpoint.take(4) == "http"@ {
        endpoint
    } else {
        trim_end_slashes(base_url) + "/"@ + trim_start_slashes(endpoint)
    }
}

/// `s` without its trailing slashes.
pub open spec fn trim_end_slashes(s: Seq<char>) -> Seq<char>
    decreases s.len(),
{
    if s.len() > 0 && s.last() == '/' {
        trim_end_slashes(s.drop_last())
    } else {
        s
    }
}

/// `s` without its leading slashes.
pub open spec fn trim_start_slashes(s: Seq<char>) -> Seq<char>
    decreases s.len(),
{
    if s.len() > 0 && s[0] == '/' {
        trim_start_slashes(s.drop_first())
    } else {
        s
    }
}


proof fn lemma_trim_end_step(s: Seq<char>, e: int)
    requires
        0 < e <= s.len(),
        s[e - 1] == '/',
    ensures
        trim_end_slashes(s.subrange(0, e)) == trim_end_slashes(s.subrange(0, e - 1)),
{
    assert(s.subrange(0, e).drop_last() =~= s.subrange(0, e - 1));
}

proof fn lemma_trim_start_step(s: Seq<char>, b: int)
    requires
        0 <= b < s.len(),
        s[b] == '/',
    ensures
        trim_start_slashes(s.subrange(b, s.len() as int)) == trim_start_slashes(s.subrange(b + 1, s.len() as int)),
{
    assert(s.subrange(b, s.len() as int).drop_first() =~= s.subrange(b + 1, s.len() as int));
}

/// Address of `endpoint` relative to `base_url` (see `spec_endpoint_url`).
pub fn endpoint_url(base_url: &str, endpoint: &str) -> (r: String)
    ensures
        r@ == spec_endpoint_url(base_url@, endpoint@),
{
    proof {
        reveal_strlit("http");
    }
    let n = endpoint.unicode_len();
    if n >= 4 && endpoint.get_char(0) == 'h' && endpoint.get_char(1) == 't' && endpoint.get_char(2)
        == 't' && endpoint.get_char(3) == 'p' {
        proof {
            assert(endpoint@.take(4) =~= "http"@);
        }
        return String::from_str(endpoint);
    }
    proof {
        if endpoint@.len() >= 4 && endpoint@.take(4) == "http"@ {
            assert(endpoint@[0] == endpoint@.take(4)[0]);
            assert(endpoint@[1] == endpoint@.take(4)[1]);
            assert(endpoint@[2] == endpoint@.take(4)[2]);
            assert(endpoint@[3] == endpoint@.take(4)[3]);
        }
    }
    let m = base_url.unicode_len();
    let mut e = m;
    proof {
        assert(base_url@.subrange(0, m as int) =~= base_url@);
    }
    while e > 0 && base_url.get_char(e - 1) == '/'
        invariant
            e <= m,
            m == base_url@.len(),
            trim_end_slashes(base_url@) == trim_end_slashes(base_url@.subrange(0, e as int)),
        decreases e,
    {
        proof {
            lemma_trim_end_step(base_url@, e as int);
        }
        e -= 1;
    }
    let mut b: usize = 0;
    proof {
        assert(endpoint@.subrange(0, n as int) =~= endpoint@);
    }
    while b < n && endpoint.get_char(b) == '/'
        invariant
            b <= n,
            n == endpoint@.len(),
            trim_start_slashes(endpoint@) == trim_start_slashes(endpoint@.subrange(b as int, n as int)),
        decreases n - b,
    {
        proof {
            lemma_trim_start_step(endpoint@, b as int);
        }
        b += 1;
    }
    let mut url = String::from_str(base_url.substring_char(0, e));
    url.append("/");
    url.append(endpoint.substring_char(b, n));
    url
}

/// Binance's largest page of candles.
pub const MAX_KLINES_LIMIT: usize = 1000;

/// A historical candle request: `base` + `/api/v3/klines` for the symbol
/// (upper-cased) and interval, then the optional limit (at most 1000), start
/// and end times, in that order.
pub open spec fn spec_historical_klines_url(
    base: Seq<char>,
    symbol: Seq<char>,
    interval: TimeInterval,
    limit: Option<usize>,
    start_time: Option<u64>,
    end_time: Option<u64>,
) -> Seq<char> {
    let head = base + "/api/v3/klines?symbol="@ + to_upper(symbol) + "&interval="@
        + interval.spec_binance_str();
    let with_limit = match limit {
        Some(l) => head + "&limit="@ + decimal((if l < 1000 { l } else { 1000 }) as nat),
        None => head,
    };
    let with_start = match start_time {
        Some(t) => with_limit + "&startTime="@ + decimal(t as nat),
        None => with_limit,
    };
    match end_time {
        Some(t) => with_start + "&endTime="@ + decimal(t as nat),
        None => with_start,
    }
}

/// HTTP client for historical candles of the Binance REST API.
#[derive(Debug, Clone)]
pub struct BinanceHttpClient {
    base_url: String,
}

impl BinanceHttpClient {
    pub closed spec fn spec_base_url(&self) -> Seq<char> {
        self.base_url@
    }

    /// The production API.
    pub fn new() -> (c: Self)
        ensures
            c.spec_base_url() == "https://api.binance.com"@,
    {
        BinanceHttpClient { base_url: String::from_str("https://api.binance.com") }
    }

    /// The test network.
    pub fn with_testnet() -> (c: Self)
        ensures
            c.spec_base_url() == "https://testnet.binance.vision"@,
    {
        BinanceHttpClient { base_url: String::from_str("https://testnet.binance.vision") }
    }

    /// Address of a historical candle request (see `spec_historical_klines_url`).
    pub fn historical_klines_url(
        &self,
        symbol: &Symbol,
        interval: TimeInterval,
        limit: Option<usize>,
        start_time: Option<u64>,
        end_time: Option<u64>,
    ) -> (r: String)
        ensures
            r@ == spec_historical_klines_url(
                self.spec_base_url(),
                symbol@,
                interval,
                limit,
                start_time,
                end_time,
            ),
    {
        let mut url = String::from_str(self.base_url.as_str());
        url.append("/api/v3/klines?symbol=");
        let upper = uppercase(symbol.value());
        url.append(upper.as_str());
        url.append("&interval=");
        url.append(interval.to_binance_str());
        match limit {
            Some(l) => {
                let capped = if l < MAX_KLINES_LIMIT {
                    l
                } else {
                    MAX_KLINES_LIMIT
                };
                url.append("&limit=");
                let text = decimal_string(capped as u64);
                url.append(text.as_str());
            },
            None => {},
        }
        match start_time {
            Some(t) => {
                url.append("&startTime=");
                let text = decimal_string(t);
                url.append(text.as_str());
            },
            None => {},
        }
        match end_time {
            Some(t) => {
                url.append("&endTime=");
                let text = decimal_string(t);
                url.append(text.as_str());
            },
            None => {},
        }
        url
    }
}
} // verus!
