use vstd::prelude::*;
use crate::http::{dec_digits, empty_response, int_digits, i64_to_dec, u64_to_dec, HttpResponse};
use crate::json::{max_body_len, parse_rng_request, spec_parse_request};
use crate::number::Dec;
use crate::sampler::{sample, RngRequest, Sample, SamplePlan};
use crate::store::{live, live_ids, lowest_free, Store};

verus! {

/// The record the user resource stores: an opaque marker payload, shown to
/// clients as an empty object.
#[derive(Clone, Copy, Debug)]
pub struct UserData;

/// The store the service keeps its user records in.
pub type UserStore = Store<UserData>;

/// The listing body: the live ids in slot order, comma separated.
pub open spec fn ids_listing(ids: Seq<int>) -> Seq<u8>
    decreases ids.len(),
{
    if ids.len() == 0 {
        Seq::empty()
    } else if ids.len() == 1 {
        dec_digits(ids[0] as nat)
    } else {
        ids_listing(ids.drop_last()) + seq![44u8] + dec_digits(ids.last() as nat)
    }
}

/// Serves the collection listing: every live id, in slot order.
pub fn list_users_response(store: &UserStore) -> (r: HttpResponse)
    ensures
        r.status == 200,
        r.body@ == ids_listing(live_ids(store@)),
{
    let ids = store.list();
    let mut body: Vec<u8> = Vec::new();
    let n = ids.len();
    let mut k: usize = 0;
    while k < n
        invariant
            n == ids@.len(),
            0 <= k <= n,
            ids@.map_values(|id: usize| id as int) == live_ids(store@),
            body@ == ids_listing(live_ids(store@).take(k as int)),
        decreases n - k,
    {
        proof {
            assert(live_ids(store@)[k as int] == ids@.map_values(|id: usize| id as int)[k as int]);
        }
        if k > 0 {
            body.push(44);
        }
        let mut d = u64_to_dec(ids[k] as u64);
        body.append(&mut d);
        proof {
            let whole = live_ids(store@);
            let cur = whole.take(k + 1);
            assert(cur.drop_last() =~= whole.take(k as int));
            assert(cur.last() == whole[k as int]);
            assert(body@ =~= ids_listing(cur));
        }
        k = k + 1;
    }
    proof {
        assert(live_ids(store@).take(n as int) =~= live_ids(store@));
    }
    HttpResponse { status: 200, body }
}

/// Creates a record in the lowest free slot and answers with the new id as
/// decimal text.  Never fails.
pub fn create_user_response(store: &mut UserStore) -> (r: HttpResponse)
    ensures
        r.status == 200,
        r.body@ == dec_digits(lowest_free(old(store)@) as nat),
        final(store)@ == (if lowest_free(old(store)@) < old(store)@.len() {
            old(store)@.update(lowest_free(old(store)@), Some(UserData))
        } else {
            old(store)@.push(Some(UserData))
        }),
        live(final(store)@, lowest_free(old(store)@)),
        !live(old(store)@, lowest_free(old(store)@)),
{
    let id = store.insert(UserData);
    let body = u64_to_dec(id as u64);
    HttpResponse { status: 200, body }
}

/// Fetches the record at `id`: its rendering when live, not-found otherwise.
pub fn get_user_response(store: &UserStore, id: usize) -> (r: HttpResponse)
    ensures
        live(store@, id as int) ==> r.status == 200 && r.body@ == seq![123u8, 125u8],
        !live(store@, id as int) ==> r.status == 404 && r.body@.len() == 0,
{
    match store.get(id) {
        Some(_) => {
            let body: Vec<u8> = vec![123u8, 125u8];
            proof {
                assert(body@ =~= seq![123u8, 125u8]);
            }
            HttpResponse { status: 200, body }
        },
        None => empty_response(404),
    }
}

/// Replaces the record at `id` when live, and reports not-found otherwise,
/// leaving the store unchanged.
pub fn update_user_response(store: &mut UserStore, id: usize) -> (r: HttpResponse)
    ensures
        r.body@.len() == 0,
        live(old(store)@, id as int) ==> r.status == 200 && final(store)@ == old(store)@.update(
            id as int,
            Some(UserData),
        ),
        !live(old(store)@, id as int) ==> r.status == 404 && final(store)@ == old(store)@,
{
    if store.update(id, UserData) {
        empty_response(200)
    } else {
        empty_response(404)
    }
}

/// Removes the record at `id` when live, freeing its slot for reuse, and
/// reports not-found otherwise, leaving the store unchanged.
pub fn delete_user_response(store: &mut UserStore, id: usize) -> (r: HttpResponse)
    ensures
        r.body@.len() == 0,
        live(old(store)@, id as int) ==> r.status == 200 && final(store)@ == old(store)@.update(
            id as int,
            None,
        ),
        !live(old(store)@, id as int) ==> r.status == 404 && final(store)@ == old(store)@,
{
    if store.delete(id) {
        empty_response(200)
    } else {
        empty_response(404)
    }
}

/// The response frame's opening bytes, spelling `{"value":`.
pub open spec fn json_value_open() -> Seq<u8> {
    seq![123u8, 34u8, 118u8, 97u8, 108u8, 117u8, 101u8, 34u8, 58u8]
}

/// The response for an integer-valued sample.
pub open spec fn json_value_int(x: int) -> Seq<u8> {
    json_value_open() + int_digits(x) + seq![125u8]
}

/// The response for a Bernoulli sample: one or zero, written as the floats
/// `1.0` and `0.0`.
pub open spec fn json_value_bit(b: bool) -> Seq<u8> {
    json_value_open() + (if b {
        seq![49u8, 46u8, 48u8]
    } else {
        seq![48u8, 46u8, 48u8]
    }) + seq![125u8]
}

/// The response for a sample already rendered as text.
pub open spec fn json_value_text(t: Seq<u8>) -> Seq<u8> {
    json_value_open() + t + seq![125u8]
}

fn frame_open() -> (r: Vec<u8>)
    ensures
        r@ == json_value_open(),
{
    let r: Vec<u8> = vec![123u8, 34u8, 118u8, 97u8, 108u8, 117u8, 101u8, 34u8, 58u8];
    proof {
        assert(r@ =~= json_value_open());
    }
    r
}

/// Frames an integer-valued sample.
fn frame_int(x: i64) -> (r: Vec<u8>)
    ensures
        r@ == json_value_int(x as int),
{
    let mut r = frame_open();
    let mut d = i64_to_dec(x);
    r.append(&mut d);
    r.push(125);
    proof {
        assert(r@ =~= json_value_int(x as int));
    }
    r
}

/// Frames a Bernoulli sample.
fn frame_bit(b: bool) -> (r: Vec<u8>)
    ensures
        r@ == json_value_bit(b),
{
    let mut r = frame_open();
    if b {
        r.push(49);
    } else {
        r.push(48);
    }
    r.push(46);
    r.push(48);
    r.push(125);
    proof {
        assert(r@ =~= json_value_bit(b));
    }
    r
}

/// What the sampling endpoint decided for one request body: a finished
/// response, or a Gaussian draw that an outside floating-point sampler must
/// finish, whose text `normal_response` then frames.
pub enum RandomStep {
    Done(HttpResponse),
    NeedNormal { mean: Dec, std_dev: Dec },
}

/// Answers the sampling endpoint from a fully buffered request body.
///
/// A body that does not spell a descriptor, or one whose parameters lie
/// outside their domain, is rejected as unprocessable with an empty body.  A
/// uniform descriptor with a nonempty range is owed an integer sample inside
/// the range, framed as `{"value":N}`.  A Bernoulli probability of zero is
/// owed `0.0` and one is owed `1.0`.  A Gaussian descriptor with a positive
/// standard deviation is handed back for the outside draw, parameters
/// unchanged.
pub fn random_response(body: &[u8]) -> (r: RandomStep)
    requires
        body@.len() <= max_body_len(),
    ensures
        match spec_parse_request(body@) {
            None => r matches RandomStep::Done(resp) && resp.status == 422 && resp.body@.len()
                == 0,
            Some(q) => match q {
                RngRequest::Uniform { start, end } => {
                    if start < end {
                        r matches RandomStep::Done(resp) && resp.status == 200 && (exists|v: i64|
                            start <= v < end && resp.body@ == json_value_int(v as int))
                    } else {
                        r matches RandomStep::Done(resp) && resp.status == 422 && resp.body@.len()
                            == 0
                    }
                },
                RngRequest::Normal { mean, std_dev } => {
                    if std_dev.pos() {
                        r == (RandomStep::NeedNormal { mean, std_dev })
                    } else {
                        r matches RandomStep::Done(resp) && resp.status == 422 && resp.body@.len()
                            == 0
                    }
                },
                RngRequest::Bernoulli { p } => {
                    if p.nonneg() && p.le_one() {
                        r matches RandomStep::Done(resp) && resp.status == 200 && (resp.body@
                            == json_value_bit(false) || resp.body@ == json_value_bit(true)) && (
                        p.is_zero() ==> resp.body@ == json_value_bit(false)) && (p.eq_one()
                            ==> resp.body@ == json_value_bit(true))
                    } else {
                        r matches RandomStep::Done(resp) && resp.status == 422 && resp.body@.len()
                            == 0
                    }
                },
            },
        },
{
    match parse_rng_request(body) {
        None => RandomStep::Done(empty_response(422)),
        Some(q) => {
            match sample(&q) {
                SamplePlan::Invalid => RandomStep::Done(empty_response(422)),
                SamplePlan::NeedNormal { mean, std_dev } => RandomStep::NeedNormal {
                    mean,
                    std_dev,
                },
                SamplePlan::Drawn(Sample::Int(v)) => RandomStep::Done(
                    HttpResponse { status: 200, body: frame_int(v) },
                ),
                SamplePlan::Drawn(Sample::Bit(b)) => RandomStep::Done(
                    HttpResponse { status: 200, body: frame_bit(b) },
                ),
            }
        },
    }
}

/// Frames the text an outside Gaussian draw produced, or rejects the request
/// as unprocessable when the draw could not be made.
pub fn normal_response(draw: Option<String>) -> (r: HttpResponse)
    ensures
        match draw {
            Some(t) => r.status == 200 && r.body@ == json_value_text(
                vstd::utf8::encode_utf8(t@),
            ),
            None => r.status == 422 && r.body@.len() == 0,
        },
{
    match draw {
        Some(t) => {
            let mut body = frame_open();
            body.extend_from_slice(t.as_str().as_bytes());
            body.push(125);
            proof {
                assert(body@ =~= json_value_text(vstd::utf8::encode_utf8(t@)));
            }
            HttpResponse { status: 200, body }
        },
        None => empty_response(422),
    }
}

} // verus!
