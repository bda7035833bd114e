//! The open-meteo weather service: which places have a request under way and
//! which datasets have been received.

use vstd::prelude::*;
use crate::place::{Place, PlaceView};
use crate::place_map::PlaceMap;
use crate::decimal::{
    all_digits, digits_value, lemma_nat_digits_form, lemma_nat_digits_value, nat_digits, push_decimal,
};
use crate::hourly::{field_names, joined, url_args};

verus! {

/// The number of days to include in the forecast.
pub const FORECAST_DAYS: u8 = 3;

/// The address of the forecast request for the given coordinates (as written
/// in the request, to four decimals) and number of days.
pub open spec fn forecast_url(latitude: Seq<char>, longitude: Seq<char>, days: nat) -> Seq<char> {
    "http://api.open-meteo.com/v1/forecast?timezone=auto&forecast_days="@ + nat_digits(days)
        + "&hourly="@ + joined(field_names(), seq![',']) + "&latitude="@ + latitude
        + "&longitude="@ + longitude
}

/// The forecast address ends with the coordinates exactly as given,
/// `&latitude=<latitude>&longitude=<longitude>`, and what comes before them
/// does not depend on the coordinates.
pub proof fn lemma_forecast_url_carries_coordinates(
    latitude: Seq<char>,
    longitude: Seq<char>,
    other_latitude: Seq<char>,
    other_longitude: Seq<char>,
    days: nat,
)
    ensures
        ({
            let url = forecast_url(latitude, longitude, days);
            let tail = "&latitude="@ + latitude + "&longitude="@ + longitude;
            let other = forecast_url(other_latitude, other_longitude, days);
            let other_tail = "&latitude="@ + other_latitude + "&longitude="@ + other_longitude;
            &&& url.len() >= tail.len()
            &&& url.skip(url.len() - tail.len()) == tail
            &&& other.len() >= other_tail.len()
            &&& url.take(url.len() - tail.len()) == other.take(other.len() - other_tail.len())
        }),
{
    let head = "http://api.open-meteo.com/v1/forecast?timezone=auto&forecast_days="@ + nat_digits(days)
        + "&hourly="@ + joined(field_names(), seq![',']);
    let tail = "&latitude="@ + latitude + "&longitude="@ + longitude;
    let other_tail = "&latitude="@ + other_latitude + "&longitude="@ + other_longitude;
    let url = forecast_url(latitude, longitude, days);
    let other = forecast_url(other_latitude, other_longitude, days);
    assert(url =~= head + tail);
    assert(other =~= head + other_tail);
    assert(url.skip(url.len() - tail.len()) =~= tail);
    assert(url.take(url.len() - tail.len()) =~= head);
    assert(other.take(other.len() - other_tail.len()) =~= head);
}

/// The forecast address asks for the given number of days and for the hourly
/// variables: it is the endpoint's address, then digits that read as `days`,
/// then `&hourly=` and the names of the hourly variables separated by
/// commas, then the coordinates.
pub proof fn lemma_forecast_url_asks_days(latitude: Seq<char>, longitude: Seq<char>, days: nat)
    ensures
        exists|digits: Seq<char>|
            #![trigger digits_value(digits)]
            {
                &&& digits.len() >= 1
                &&& all_digits(digits)
                &&& digits_value(digits) == days
                &&& forecast_url(latitude, longitude, days)
                    == "http://api.open-meteo.com/v1/forecast?timezone=auto&forecast_days="@
                    + digits + "&hourly="@ + joined(field_names(), seq![',']) + "&latitude="@
                    + latitude + "&longitude="@ + longitude
            },
{
    lemma_nat_digits_form(days);
    lemma_nat_digits_value(days);
    let _ = digits_value(nat_digits(days));
}

/// The address of the endpoint that serves the forecast of `forecast_days`
/// days at the place with the given coordinates, written to four decimals.
pub fn endpoint_url(latitude: &str, longitude: &str, forecast_days: u8) -> (url: String)
    ensures
        url@ == forecast_url(latitude@, longitude@, forecast_days as nat),
{
    let mut url = String::from_str("http://api.open-meteo.com/v1/forecast?timezone=auto&forecast_days=");
    push_decimal(&mut url, forecast_days as u64);
    url.append("&hourly=");
    let args = url_args();
    url.append(args.as_str());
    url.append("&latitude=");
    url.append(latitude);
    url.append("&longitude=");
    url.append(longitude);
    url
}

/// What the weather bookkeeping holds: for each place with requests under
/// way, how many are out; and the entries of the places asked for: a dataset
/// once one has been received, `None` while a request has been sent and not
/// answered yet.
pub struct WeatherView<D> {
    pub outgoing: Map<PlaceView, u64>,
    pub current: Map<PlaceView, Option<D>>,
}

/// Whether a request for `p` is under way.
pub open spec fn under_way<D>(w: WeatherView<D>, p: PlaceView) -> bool {
    w.outgoing.contains_key(p)
}

/// The number of requests for `p` that are out.
pub open spec fn outstanding<D>(w: WeatherView<D>, p: PlaceView) -> nat {
    if w.outgoing.contains_key(p) {
        w.outgoing[p] as nat
    } else {
        0
    }
}

/// Whether a dataset of `p` is held.
pub open spec fn cached<D>(w: WeatherView<D>, p: PlaceView) -> bool {
    w.current.contains_key(p) && w.current[p] is Some
}

/// The bookkeeping agrees with itself: a place under way has at least one
/// request out, and every entry without a dataset belongs to a place with a
/// request under way (a `None` entry means "request sent, no answer yet").
pub open spec fn consistent<D>(w: WeatherView<D>) -> bool {
    &&& forall|p: PlaceView| #[trigger] w.outgoing.contains_key(p) ==> w.outgoing[p] >= 1
    &&& forall|p: PlaceView|
        #[trigger] w.current.contains_key(p) && w.current[p] is None ==> w.outgoing.contains_key(p)
}

/// Sending a query for `p`: one more request for `p` is out (the count stops
/// at `u64::MAX`, a number of requests never reached); the entries stay as
/// they are.
pub open spec fn send_step<D>(w: WeatherView<D>, p: PlaceView) -> WeatherView<D> {
    let n = outstanding(w, p);
    let count: u64 = if n < u64::MAX {
        (n + 1) as u64
    } else {
        u64::MAX
    };
    WeatherView { outgoing: w.outgoing.insert(p, count), current: w.current }
}

/// Asking for the weather of `p`: `p` gets an entry (with no dataset) if it
/// had none; a request is sent, and `p` noted as under way with one request
/// out, unless a dataset of `p` is held or a request for `p` is already under
/// way. The second component says whether a request is sent.
pub open spec fn request_step<D>(w: WeatherView<D>, p: PlaceView) -> (WeatherView<D>, bool) {
    let current = if w.current.contains_key(p) {
        w.current
    } else {
        w.current.insert(p, None)
    };
    let send = !cached(w, p) && !under_way(w, p);
    let outgoing = if send {
        w.outgoing.insert(p, 1)
    } else {
        w.outgoing
    };
    (WeatherView { outgoing, current }, send)
}

/// Receiving the answer `(p, data)`: one request fewer for `p` is out, and
/// `p` is no longer under way when that was its last one; a dataset becomes
/// the entry of `p`; an answer without a dataset removes the entry of `p`, so
/// that asking again, once no request is out, sends a new request.
pub open spec fn response_step<D>(w: WeatherView<D>, p: PlaceView, data: Option<D>) -> WeatherView<
    D,
> {
    let outgoing = if w.outgoing.contains_key(p) && w.outgoing[p] > 1 {
        w.outgoing.insert(p, (w.outgoing[p] - 1) as u64)
    } else {
        w.outgoing.remove(p)
    };
    let current = match data {
        Some(_) => w.current.insert(p, data),
        None => w.current.remove(p),
    };
    WeatherView { outgoing, current }
}

/// Receiving the answers `responses`, in order.
pub open spec fn responses_step<D>(w: WeatherView<D>, responses: Seq<(PlaceView, Option<D>)>) -> WeatherView<D>
    decreases responses.len(),
{
    if responses.len() == 0 {
        w
    } else {
        let last = responses.last();
        response_step(responses_step(w, responses.drop_last()), last.0, last.1)
    }
}

/// Asking twice for the weather of a place, with no answer received in
/// between, sends at most one request: the second asking sends nothing and
/// changes nothing.
pub proof fn lemma_request_at_most_once<D>(w: WeatherView<D>, p: PlaceView)
    ensures
        request_step(request_step(w, p).0, p) == (request_step(w, p).0, false),
{
    let w1 = request_step(w, p).0;
    assert(w1.current.contains_key(p));
    if request_step(w, p).1 {
        assert(w1.outgoing.contains_key(p));
    }
    assert(request_step(w1, p).0.current =~= w1.current);
    assert(request_step(w1, p).0.outgoing =~= w1.outgoing);
}

/// Sending a query always puts one more request for the place out and leaves
/// the entries and the other places as they were.
pub proof fn lemma_send_counts<D>(w: WeatherView<D>, p: PlaceView)
    ensures
        under_way(send_step(w, p), p),
        outstanding(w, p) < u64::MAX ==> outstanding(send_step(w, p), p) == outstanding(w, p) + 1,
        send_step(w, p).current == w.current,
        forall|q: PlaceView|
            q != p ==> #[trigger] outstanding(send_step(w, p), q) == outstanding(w, q),
{
}

/// An answer takes back one sent query: sending a query for a place and then
/// receiving one answer for it leaves the requests under way as they were.
/// So after two queries and one answer, the place is still under way.
pub proof fn lemma_answer_undoes_send<D>(w: WeatherView<D>, p: PlaceView, data: Option<D>)
    requires
        consistent(w),
        outstanding(w, p) + 1 < u64::MAX,
    ensures
        response_step(send_step(w, p), p, data).outgoing == w.outgoing,
        under_way(response_step(send_step(send_step(w, p), p), p, data), p),
{
    assert(response_step(send_step(w, p), p, data).outgoing =~= w.outgoing);
    let w1 = send_step(w, p);
    assert(response_step(send_step(w1, p), p, data).outgoing =~= w1.outgoing);
}

/// Asking for the weather of a place, sending a query for it and receiving an
/// answer for it leave the entries of every other place as they were: a
/// dataset held for another place stays held.
pub proof fn lemma_other_places_kept<D>(w: WeatherView<D>, p: PlaceView, data: Option<D>, q: PlaceView)
    requires
        q != p,
    ensures
        request_step(w, p).0.current.contains_key(q) == w.current.contains_key(q),
        w.current.contains_key(q) ==> request_step(w, p).0.current[q] == w.current[q],
        cached(w, q) ==> cached(request_step(w, p).0, q),
        send_step(w, p).current.contains_key(q) == w.current.contains_key(q),
        w.current.contains_key(q) ==> send_step(w, p).current[q] == w.current[q],
        response_step(w, p, data).current.contains_key(q) == w.current.contains_key(q),
        w.current.contains_key(q) ==> response_step(w, p, data).current[q] == w.current[q],
        under_way(request_step(w, p).0, q) == under_way(w, q),
{
}

/// Asking for the weather of a place whose dataset is held sends nothing and
/// changes nothing.
pub proof fn lemma_cached_not_requested<D>(w: WeatherView<D>, p: PlaceView)
    requires
        cached(w, p),
    ensures
        request_step(w, p) == (w, false),
{
    assert(request_step(w, p).0.current =~= w.current);
    assert(request_step(w, p).0.outgoing =~= w.outgoing);
}

/// A request is sent only for a place with no dataset held and no request
/// out, and afterwards the place has one request out and an entry without a
/// dataset.
pub proof fn lemma_request_sent<D>(w: WeatherView<D>, p: PlaceView)
    ensures
        request_step(w, p).1 ==> !cached(w, p) && !under_way(w, p),
        request_step(w, p).1 ==> outstanding(request_step(w, p).0, p) == 1
            && request_step(w, p).0.current[p] is None,
{
}

/// After the answer `(p, data)` one request fewer for `p` is out, and the
/// other places keep theirs. An answer with a dataset makes it the entry of
/// `p`, and asking again sends nothing. After an answer without one, `p` has
/// no entry, and asking again sends a new request once no request for `p` is
/// out.
pub proof fn lemma_answer_settles<D>(w: WeatherView<D>, p: PlaceView, data: Option<D>)
    requires
        consistent(w),
    ensures
        outstanding(w, p) > 0 ==> outstanding(response_step(w, p, data), p) == outstanding(w, p)
            - 1,
        outstanding(w, p) == 0 ==> !under_way(response_step(w, p, data), p),
        forall|q: PlaceView|
            q != p ==> #[trigger] outstanding(response_step(w, p, data), q) == outstanding(w, q),
        data is Some ==> response_step(w, p, data).current[p] == data,
        data is Some ==> request_step(response_step(w, p, data), p) == (
            response_step(w, p, data),
            false,
        ),
        data is None ==> !response_step(w, p, data).current.contains_key(p),
        data is None && outstanding(w, p) <= 1 ==> request_step(response_step(w, p, data), p).1,
{
    let w1 = response_step(w, p, data);
    if data is Some {
        lemma_cached_not_requested(w1, p);
    }
}

/// After a run of answers, a place whose last answer carried a dataset holds
/// it, and one whose last answer carried none has no entry.
pub proof fn lemma_answers_settle<D>(
    w: WeatherView<D>,
    responses: Seq<(PlaceView, Option<D>)>,
    i: int,
)
    requires
        0 <= i < responses.len(),
        forall|j: int| i < j < responses.len() ==> responses[j].0 != responses[i].0,
    ensures
        responses[i].1 is Some ==> responses_step(w, responses).current[responses[i].0]
            == responses[i].1,
        responses[i].1 is None ==> !responses_step(w, responses).current.contains_key(
            responses[i].0,
        ),
    decreases responses.len(),
{
    if i < responses.len() - 1 {
        let shorter = responses.drop_last();
        lemma_answers_settle(w, shorter, i);
    }
}

/// Sending, asking and receiving an answer keep the bookkeeping consistent.
pub proof fn lemma_steps_consistent<D>(w: WeatherView<D>, p: PlaceView, data: Option<D>)
    requires
        consistent(w),
    ensures
        consistent(send_step(w, p)),
        consistent(request_step(w, p).0),
        consistent(response_step(w, p, data)),
{
    let s = send_step(w, p);
    assert forall|q: PlaceView| #[trigger] s.current.contains_key(q) && s.current[q] is None implies s.outgoing.contains_key(q) by {
        if q != p {
            assert(w.current.contains_key(q));
        }
    }
    let r = request_step(w, p).0;
    assert forall|q: PlaceView| #[trigger] r.current.contains_key(q) && r.current[q] is None implies r.outgoing.contains_key(q) by {
        if q != p {
            assert(w.current.contains_key(q));
        } else if w.current.contains_key(p) {
            assert(w.outgoing.contains_key(p));
        }
    }
    let a = response_step(w, p, data);
    assert forall|q: PlaceView| #[trigger] a.outgoing.contains_key(q) implies a.outgoing[q] >= 1 by {
        assert(w.outgoing.contains_key(q));
    }
    assert forall|q: PlaceView| #[trigger] a.current.contains_key(q) && a.current[q] is None implies a.outgoing.contains_key(q) by {
        if q != p {
            assert(w.current.contains_key(q));
        }
    }
}

/// A run of answers keeps the bookkeeping consistent.
pub proof fn lemma_answers_keep_consistent<D>(
    w: WeatherView<D>,
    responses: Seq<(PlaceView, Option<D>)>,
)
    requires
        consistent(w),
    ensures
        consistent(responses_step(w, responses)),
    decreases responses.len(),
{
    if responses.len() > 0 {
        let last = responses.last();
        lemma_answers_keep_consistent(w, responses.drop_last());
        lemma_steps_consistent(responses_step(w, responses.drop_last()), last.0, last.1);
    }
}

/// The views of answers.
pub open spec fn response_views<D>(responses: Seq<(Place, Option<D>)>) -> Seq<(PlaceView, Option<D>)> {
    responses.map_values(|r: (Place, Option<D>)| (r.0@, r.1))
}

/// The bookkeeping of the requests to the weather service.
pub struct Weather<D> {
    /// The places that have currently outgoing requests, with how many.
    outgoing: PlaceMap<u64>,
    /// The current datasets; `None` means that a request was sent but no
    /// dataset received.
    current: PlaceMap<Option<D>>,
}

impl<D> View for Weather<D> {
    type V = WeatherView<D>;

    closed spec fn view(&self) -> WeatherView<D> {
        WeatherView { outgoing: self.outgoing@, current: self.current@ }
    }
}

impl<D> Weather<D> {
    /// The bookkeeping is consistent (and, by their own invariants, neither
    /// map holds a place twice).
    #[verifier::type_invariant]
    closed spec fn bookkeeping_consistent(&self) -> bool {
        consistent(self@)
    }

    /// No request under way and no dataset.
    pub fn new() -> (w: Weather<D>)
        ensures
            consistent(w@),
            w@.outgoing == Map::<PlaceView, u64>::empty(),
            w@.current == Map::<PlaceView, Option<D>>::empty(),
    {
        Weather { outgoing: PlaceMap::new(), current: PlaceMap::new() }
    }

    /// Takes the two maps out of `self`, leaving it empty.
    fn take_parts(&mut self) -> (parts: (PlaceMap<u64>, PlaceMap<Option<D>>))
        ensures
            consistent(old(self)@),
            parts.0@ == old(self)@.outgoing,
            parts.1@ == old(self)@.current,
    {
        proof {
            use_type_invariant(&*self);
        }
        let mut taken = Weather::new();
        std::mem::swap(&mut taken, self);
        proof {
            use_type_invariant(&taken);
        }
        let Weather { outgoing, current } = taken;
        (outgoing, current)
    }

    /// Notes that a query for `place` is sent: one more request for it is
    /// out. The datasets stay as they are.
    pub fn send_query(&mut self, place: Place)
        ensures
            consistent(final(self)@),
            final(self)@ == send_step(old(self)@, place@),
    {
        let (mut outgoing, current) = self.take_parts();
        let ghost start = WeatherView { outgoing: outgoing@, current: current@ };
        proof {
            lemma_steps_consistent(start, place@, None);
        }
        let n: u64 = match outgoing.get(&place) {
            Some(count) => *count,
            None => 0,
        };
        let count: u64 = if n < u64::MAX {
            n + 1
        } else {
            n
        };
        outgoing.insert(place, count);
        *self = Weather { outgoing, current };
    }

    /// Asks for the weather of `place`: returns whether a query for it must
    /// be sent, which is when no dataset of it is held and no query for it is
    /// under way (and then it is noted as under way).
    pub fn request_if_not_cached(&mut self, place: Place) -> (send: bool)
        ensures
            consistent(final(self)@),
            (final(self)@, send) == request_step(old(self)@, place@),
    {
        let (mut outgoing, mut current) = self.take_parts();
        let ghost start = WeatherView { outgoing: outgoing@, current: current@ };
        proof {
            lemma_steps_consistent(start, place@, None);
        }
        current.insert_if_absent(place.duplicate(), None);
        let held = match current.get(&place) {
            Some(data) => data.is_some(),
            None => false,
        };
        let send = !held && !outgoing.contains_key(&place);
        if send {
            outgoing.insert(place, 1);
        }
        assert(current@ =~= request_step(start, place@).0.current);
        assert(outgoing@ =~= request_step(start, place@).0.outgoing);
        *self = Weather { outgoing, current };
        send
    }

    /// Takes in the answers received since the last call, in the order they
    /// came: each answer takes one request for its place off the requests
    /// out (the place is no longer under way after its last); an answer with
    /// a dataset stores it as the entry of its place, an answer without one
    /// removes the entry of its place.
    pub fn drain_responses(&mut self, responses: Vec<(Place, Option<D>)>)
        ensures
            consistent(final(self)@),
            final(self)@ == responses_step(old(self)@, response_views(responses@)),
    {
        let (mut outgoing, mut current) = self.take_parts();
        let ghost all = response_views(responses@);
        let mut rest = responses;
        let ghost mut done: int = 0;
        assert(all.take(0) =~= Seq::<(PlaceView, Option<D>)>::empty());
        assert((WeatherView { outgoing: outgoing@, current: current@ }) == old(self)@);
        while rest.len() > 0
            invariant
                0 <= done <= all.len(),
                response_views(rest@) == all.skip(done),
                consistent(WeatherView { outgoing: outgoing@, current: current@ }),
                (WeatherView { outgoing: outgoing@, current: current@ }) == responses_step(
                    old(self)@,
                    all.take(done),
                ),
            decreases rest.len(),
        {
            let ghost before = rest@;
            assert(response_views(before).len() == before.len());
            assert(done < all.len());
            assert(response_views(before)[0] == all[done]);
            let (place, data) = rest.remove(0);
            assert(rest@ =~= before.drop_first());
            assert forall|k: int| 0 <= k < rest@.len() implies #[trigger] response_views(rest@)[k]
                == all.skip(done + 1)[k] by {
                assert(rest@[k] == before[k + 1]);
                assert(response_views(before)[k + 1] == all.skip(done)[k + 1]);
            }
            assert(response_views(rest@) =~= all.skip(done + 1));
            assert(place@ == all[done].0 && data == all[done].1);
            assert(all.take(done + 1).drop_last() =~= all.take(done));
            let ghost prev = WeatherView { outgoing: outgoing@, current: current@ };
            proof {
                lemma_steps_consistent(prev, place@, data);
            }
            let count: u64 = match outgoing.get(&place) {
                Some(c) => *c,
                None => 0,
            };
            if count > 1 {
                outgoing.insert(place.duplicate(), count - 1);
            } else {
                outgoing.remove(&place);
            }
            match data {
                Some(d) => {
                    current.insert(place, Some(d));
                },
                None => {
                    current.remove(&place);
                },
            }
            assert(current@ =~= response_step(prev, place@, data).current);
            assert(outgoing@ =~= response_step(prev, place@, data).outgoing);
            proof {
                done = done + 1;
            }
        }
        assert(all.take(done) =~= all);
        *self = Weather { outgoing, current };
    }

    /// The dataset held for `place`, if any.
    pub fn get(&self, place: &Place) -> (r: Option<&D>)
        ensures
            r is Some <==> cached(self@, place@),
            r matches Some(d) ==> self@.current[place@] == Some(*d),
    {
        match self.current.get(place) {
            Some(entry) => entry.as_ref(),
            None => None,
        }
    }

    /// Whether a query for `place` is under way.
    pub fn is_outgoing(&self, place: &Place) -> (r: bool)
        ensures
            r == under_way(self@, place@),
    {
        self.outgoing.contains_key(place)
    }

    /// How many queries for `place` are out.
    pub fn outstanding(&self, place: &Place) -> (r: u64)
        ensures
            r as nat == outstanding(self@, place@),
    {
        match self.outgoing.get(place) {
            Some(count) => *count,
            None => 0,
        }
    }
}

} // verus!
