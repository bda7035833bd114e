//! The open-meteo geocoding service: the request sent for a query and the
//! bookkeeping of the search results.

use vstd::prelude::*;
use crate::place::Place;
use crate::place_set::views;
use crate::text::{lemma_trimmed_has_no_outer_space, trim, trimmed, white_space};

verus! {

/// Whether percent-encoding leaves the byte `b` as it is: ASCII letters and
/// digits, `-`, `.`, `_` and `~`.
pub open spec fn unreserved(b: u8) -> bool {
    ||| 48 <= b <= 57
    ||| 65 <= b <= 90
    ||| 97 <= b <= 122
    ||| b == 45
    ||| b == 46
    ||| b == 95
    ||| b == 126
}

/// The upper-case hexadecimal digit of `d` (for `d < 16`).
pub open spec fn hex_digit(d: nat) -> char {
    if d < 10 {
        (d + 48) as char
    } else {
        (d + 55) as char
    }
}

/// Percent-encoding of `bytes`: each unreserved byte stands for itself, each
/// other byte `b` becomes `%` followed by the two upper-case hexadecimal
/// digits of `b`.
pub open spec fn percent_encoded(bytes: Seq<u8>) -> Seq<char>
    decreases bytes.len(),
{
    if bytes.len() == 0 {
        Seq::empty()
    } else {
        let b = bytes[0];
        let head = if unreserved(b) {
            seq![b as char]
        } else {
            seq!['%', hex_digit((b / 16) as nat), hex_digit((b % 16) as nat)]
        };
        head + percent_encoded(bytes.drop_first())
    }
}

/// The value of the hexadecimal digit `c` (either case).
pub open spec fn hex_value(c: char) -> int {
    let v = c as int;
    if 48 <= v <= 57 {
        v - 48
    } else if 65 <= v <= 70 {
        v - 55
    } else if 97 <= v <= 102 {
        v - 87
    } else {
        0
    }
}

/// Percent-decoding of `text`: `%` followed by two hexadecimal digits stands
/// for the byte they write, any other character for its own code.
pub open spec fn percent_decoded(text: Seq<char>) -> Seq<u8>
    decreases text.len(),
{
    if text.len() == 0 {
        Seq::empty()
    } else if text[0] == '%' && text.len() >= 3 {
        seq![(hex_value(text[1]) * 16 + hex_value(text[2])) as u8] + percent_decoded(
            text.skip(3),
        )
    } else {
        seq![text[0] as u8] + percent_decoded(text.drop_first())
    }
}

/// Percent-decoding undoes percent-encoding: no byte is lost, changed or
/// added.
pub proof fn lemma_percent_round_trip(bytes: Seq<u8>)
    ensures
        percent_decoded(percent_encoded(bytes)) == bytes,
    decreases bytes.len(),
{
    if bytes.len() > 0 {
        let b = bytes[0];
        let rest = percent_encoded(bytes.drop_first());
        lemma_percent_round_trip(bytes.drop_first());
        let text = percent_encoded(bytes);
        if unreserved(b) {
            assert(text =~= seq![b as char] + rest);
            assert(text[0] != '%');
            assert(text.drop_first() =~= rest);
            assert((b as char) as u8 == b);
        } else {
            let hi = (b / 16) as nat;
            let lo = (b % 16) as nat;
            assert(text =~= seq!['%', hex_digit(hi), hex_digit(lo)] + rest);
            assert(text.skip(3) =~= rest);
            assert(hex_value(hex_digit(hi)) == hi);
            assert(hex_value(hex_digit(lo)) == lo);
            assert((hi * 16 + lo) as u8 == b);
        }
        assert(bytes =~= seq![b] + bytes.drop_first());
    }
}

/// Percent-encoding leaves text made of unreserved bytes as it is, and
/// writes each other byte as `%` and two hexadecimal digits.
pub proof fn lemma_percent_keeps_unreserved(bytes: Seq<u8>)
    ensures
        (forall|i: int| 0 <= i < bytes.len() ==> unreserved(#[trigger] bytes[i])) ==> percent_encoded(
            bytes,
        ) == bytes.map_values(|b: u8| b as char),
        bytes.len() == 1 && !unreserved(bytes[0]) ==> percent_encoded(bytes).len() == 3
            && percent_encoded(bytes)[0] == '%',
    decreases bytes.len(),
{
    if bytes.len() > 0 {
        lemma_percent_keeps_unreserved(bytes.drop_first());
        if forall|i: int| 0 <= i < bytes.len() ==> unreserved(#[trigger] bytes[i]) {
            assert(unreserved(bytes[0]));
            assert forall|i: int| 0 <= i < bytes.drop_first().len() implies unreserved(
                #[trigger] bytes.drop_first()[i],
            ) by {
                assert(bytes.drop_first()[i] == bytes[i + 1]);
            }
            assert(percent_encoded(bytes) =~= bytes.map_values(|b: u8| b as char));
        }
        if bytes.len() == 1 {
            assert(bytes.drop_first() =~= Seq::<u8>::empty());
        }
    }
}

/// The search address is the endpoint's prefix followed by the whole query:
/// decoding what follows `name=` gives back every UTF-8 byte of the query.
pub proof fn lemma_geocoding_url_carries_query(request: Seq<char>)
    ensures
        ({
            let url = geocoding_url(request);
            let prefix = "http://geocoding-api.open-meteo.com/v1/search?count=10&name="@;
            &&& url.len() >= prefix.len()
            &&& url.take(prefix.len() as int) == prefix
            &&& percent_decoded(url.skip(prefix.len() as int)) == vstd::utf8::encode_utf8(request)
        }),
{
    let url = geocoding_url(request);
    let prefix = "http://geocoding-api.open-meteo.com/v1/search?count=10&name="@;
    let enc = percent_encoded(vstd::utf8::encode_utf8(request));
    assert(url.take(prefix.len() as int) =~= prefix);
    assert(url.skip(prefix.len() as int) =~= enc);
    lemma_percent_round_trip(vstd::utf8::encode_utf8(request));
}

/// `urlencoding::encode`: percent-encodes the UTF-8 bytes of `data`, every
/// byte except ASCII letters, digits, `-`, `_`, `.` and `~` replaced by `%`
/// and its two upper-case hexadecimal digits.
#[verifier::external_body]
fn url_encode(data: &str) -> (r: String)
    ensures
        r@ == percent_encoded(vstd::utf8::encode_utf8(data@)),
{
    urlencoding::encode(data).into_owned()
}

/// The address of the geocoding endpoint that answers the query `request`.
pub open spec fn geocoding_url(request: Seq<char>) -> Seq<char> {
    "http://geocoding-api.open-meteo.com/v1/search?count=10&name="@ + percent_encoded(
        vstd::utf8::encode_utf8(request),
    )
}

/// The search results kept for the last answer of the geocoding service, and
/// the query that the user is filling in.
pub struct GeoCoding {
    /// The query that the user is currently filling in the UI.
    pub current_query: String,
    /// Results that have been received from the last request.
    pub search_results: Vec<Place>,
}

impl GeoCoding {
    /// No query typed and no results yet.
    pub fn new() -> (g: GeoCoding)
        ensures
            g.current_query@ == Seq::<char>::empty(),
            g.search_results@.len() == 0,
    {
        GeoCoding { current_query: String::new(), search_results: Vec::new() }
    }

    /// Using `request`, get the URL of the endpoint that will service it.
    pub fn endpoint_url(request: &str) -> (url: String)
        ensures
            url@ == geocoding_url(request@),
    {
        let mut url = String::from_str("http://geocoding-api.open-meteo.com/v1/search?count=10&name=");
        let encoded = url_encode(request);
        url.append(encoded.as_str());
        url
    }

    /// The query to send for the current input: the input without its
    /// leading and trailing whitespace, or nothing when that is empty.
    pub fn send_query(&self) -> (q: Option<String>)
        ensures
            trimmed(self.current_query@).len() == 0 ==> q is None,
            trimmed(self.current_query@).len() > 0 ==> (q matches Some(s) && s@ == trimmed(
                self.current_query@,
            )),
            q matches Some(s) ==> s@.len() > 0 && !white_space(s@[0]) && !white_space(s@.last()),
    {
        proof {
            lemma_trimmed_has_no_outer_space(self.current_query@);
        }
        let query = trim(self.current_query.as_str());
        if query.as_str().is_empty() {
            None
        } else {
            Some(query)
        }
    }

    /// Keeps the last of `responses`, the answers received since the last
    /// call in the order they came, as the search results; with no answer
    /// the results stay as they were.
    pub fn drain_responses(&mut self, responses: Vec<Vec<Place>>)
        ensures
            final(self).current_query@ == old(self).current_query@,
            responses@.len() == 0 ==> views(final(self).search_results@) == views(
                old(self).search_results@,
            ),
            responses@.len() > 0 ==> views(final(self).search_results@) == views(
                responses@.last()@,
            ),
    {
        let mut responses = responses;
        match responses.pop() {
            Some(results) => {
                self.search_results = results;
            },
            None => {},
        }
    }
}

} // verus!
