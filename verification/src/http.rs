use vstd::prelude::*;
use vstd::string::StringSliceAdditionalSpecFns;

verus! {

/// A finished HTTP answer: a status code and a fully rendered body.
pub struct HttpResponse {
    pub status: u16,
    pub body: Vec<u8>,
}

/// The decimal digits of `n`, most significant first.
pub open spec fn dec_digits(n: nat) -> Seq<u8>
    decreases n,
{
    if n < 10 {
        seq![(n + 48) as u8]
    } else {
        dec_digits(n / 10).push(((n % 10) + 48) as u8)
    }
}

/// The decimal rendering of a signed integer.
pub open spec fn int_digits(x: int) -> Seq<u8> {
    if x < 0 {
        seq![45u8] + dec_digits((-x) as nat)
    } else {
        dec_digits(x as nat)
    }
}

/// Renders an unsigned integer in decimal.
pub fn u64_to_dec(x: u64) -> (r: Vec<u8>)
    ensures
        r@ == dec_digits(x as nat),
    decreases x,
{
    if x < 10 {
        let mut v: Vec<u8> = Vec::new();
        v.push((x as u8) + 48);
        proof {
            assert(v@ =~= dec_digits(x as nat));
        }
        v
    } else {
        let mut v = u64_to_dec(x / 10);
        v.push(((x % 10) as u8) + 48);
        v
    }
}

/// Renders a signed integer in decimal, with a leading minus when negative.
pub fn i64_to_dec(x: i64) -> (r: Vec<u8>)
    ensures
        r@ == int_digits(x as int),
{
    if x >= 0 {
        u64_to_dec(x as u64)
    } else {
        let mag: u64 = (-(x as i128)) as u64;
        let mut v: Vec<u8> = Vec::new();
        v.push(45);
        let mut d = u64_to_dec(mag);
        v.append(&mut d);
        proof {
            assert(v@ =~= int_digits(x as int));
        }
        v
    }
}

/// The static info page.
pub open spec fn index_html() -> Seq<u8> {
    "
    <!doctype HTML>
    <html>
        <head>
            <title>Rust Microservice</title>
        </head>
        <body>
            <h3>Rust Microservice</h3>
        </body>
    </html>
".spec_bytes()
}

/// Serves the static info page.
pub fn index_response() -> (r: HttpResponse)
    ensures
        r.status == 200,
        r.body@ == index_html(),
{
    let body = vstd::slice::slice_to_vec(
        "
    <!doctype HTML>
    <html>
        <head>
            <title>Rust Microservice</title>
        </head>
        <body>
            <h3>Rust Microservice</h3>
        </body>
    </html>
".as_bytes(),
    );
    HttpResponse { status: 200, body }
}

/// An answer carrying a status code and no body.
pub fn empty_response(status: u16) -> (r: HttpResponse)
    ensures
        r.status == status,
        r.body@ =~= Seq::<u8>::empty(),
{
    HttpResponse { status, body: Vec::new() }
}

} // verus!
