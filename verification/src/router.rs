use vstd::prelude::*;
use crate::bytes::span_is;
use crate::number::{digits_val, is_digit, lemma_pow10_vals, pow10};
use vstd::string::StringSliceAdditionalSpecFns;

verus! {

/// The request methods the routes distinguish.
#[derive(Clone, Copy, Debug, PartialEq, Eq, Structural)]
pub enum Method {
    Get,
    Post,
    Put,
    Delete,
    Other,
}

/// What the dispatcher decided for a request: which handler runs, or which
/// status answers at once.  Echo actions leave the body handling to the
/// caller, so that streamed bodies are never buffered here.
#[derive(Clone, Copy, Debug, PartialEq, Eq, Structural)]
pub enum Action {
    /// Serve the static info page.
    ServeIndex,
    /// List the live ids of the entity store.
    ListUsers,
    /// Insert a fresh record and answer with its id.
    CreateUser,
    /// Fetch the record at `id`.
    GetUser { id: usize },
    /// Replace the record at `id`.
    UpdateUser { id: usize },
    /// Remove the record at `id`.
    DeleteUser { id: usize },
    /// Stream the body back unchanged.
    EchoPlain,
    /// Stream the body back uppercased chunk by chunk.
    EchoUppercase,
    /// Buffer the body and send it reversed.
    EchoReverse,
    /// Buffer the body, read a distribution descriptor, sample it.
    SampleRandom,
    /// Answer at once with this status and an empty body.
    Respond { status: u16 },
}

/// The index route: the root path or the info page's name.
pub open spec fn is_index_path(p: Seq<u8>) -> bool {
    p == "/".spec_bytes() || p == "/index.html".spec_bytes() || p == "/index.htm".spec_bytes()
}

/// The collection route, with or without a trailing slash.
pub open spec fn is_users_path(p: Seq<u8>) -> bool {
    p == "/users".spec_bytes() || p == "/users/".spec_bytes()
}

/// What follows the item route's prefix.
pub open spec fn user_rest(p: Seq<u8>) -> Seq<u8> {
    p.subrange(6, p.len() as int)
}

/// The id segment: the rest with at most one trailing slash removed.
pub open spec fn user_seg(p: Seq<u8>) -> Seq<u8> {
    let rest = user_rest(p);
    if rest.len() > 0 && rest.last() == 47 {
        rest.drop_last()
    } else {
        rest
    }
}

/// The item route: the prefix `/user/`, then an empty rest, or one segment
/// (no further slash) with at most one trailing slash.
pub open spec fn is_user_item_path(p: Seq<u8>) -> bool {
    &&& p.len() >= 6
    &&& p.subrange(0, 6) == "/user/".spec_bytes()
    &&& (user_rest(p).len() == 0 || (user_seg(p).len() > 0 && forall|i: int|
        0 <= i < user_seg(p).len() ==> user_seg(p)[i] != 47))
}

/// A segment that spells a valid slot id: all digits, value within the
/// machine's word.
pub open spec fn seg_is_valid_id(seg: Seq<u8>) -> bool {
    &&& seg.len() > 0
    &&& (forall|i: int| 0 <= i < seg.len() ==> is_digit(seg[i]))
    &&& digits_val(seg, 0, seg.len() as int) <= usize::MAX
}

/// The id a valid segment spells.
pub open spec fn seg_id(seg: Seq<u8>) -> usize {
    digits_val(seg, 0, seg.len() as int) as usize
}

/// The item route's decision table.  An absent id takes a POST as a creation
/// and rejects everything else as a bad request.  A well-formed id serves
/// fetch, replace and remove.  A malformed id (not digits, or too large) is
/// treated as absent for POST and as an unknown resource for the three item
/// methods; any other method is not allowed here.
pub open spec fn spec_user_action(m: Method, p: Seq<u8>) -> Action {
    let seg = user_seg(p);
    if seg.len() == 0 {
        if m is Post {
            Action::CreateUser
        } else {
            Action::Respond { status: 400 }
        }
    } else if seg_is_valid_id(seg) {
        match m {
            Method::Get => Action::GetUser { id: seg_id(seg) },
            Method::Put => Action::UpdateUser { id: seg_id(seg) },
            Method::Delete => Action::DeleteUser { id: seg_id(seg) },
            _ => Action::Respond { status: 405 },
        }
    } else {
        match m {
            Method::Post => Action::CreateUser,
            Method::Get => Action::Respond { status: 404 },
            Method::Put => Action::Respond { status: 404 },
            Method::Delete => Action::Respond { status: 404 },
            _ => Action::Respond { status: 405 },
        }
    }
}

/// The whole route table, one pattern after the other in a fixed priority
/// order; the first match wins and anything else is an unknown resource.
pub open spec fn spec_route(m: Method, p: Seq<u8>) -> Action {
    if is_index_path(p) {
        if m is Get {
            Action::ServeIndex
        } else {
            Action::Respond { status: 405 }
        }
    } else if is_users_path(p) {
        if m is Get {
            Action::ListUsers
        } else {
            Action::Respond { status: 405 }
        }
    } else if is_user_item_path(p) {
        spec_user_action(m, p)
    } else if p == "/echo".spec_bytes() {
        if m is Post {
            Action::EchoPlain
        } else {
            Action::Respond { status: 405 }
        }
    } else if p == "/echo/uppercase".spec_bytes() {
        if m is Post {
            Action::EchoUppercase
        } else {
            Action::Respond { status: 405 }
        }
    } else if p == "/echo/reverse".spec_bytes() {
        if m is Post {
            Action::EchoReverse
        } else {
            Action::Respond { status: 405 }
        }
    } else if p == "/random".spec_bytes() {
        if m is Post {
            Action::SampleRandom
        } else {
            Action::Respond { status: 405 }
        }
    } else {
        Action::Respond { status: 404 }
    }
}

/// Reads the id a digit segment spells, when it fits the machine's word.
/// Leading zeros are allowed and do not change the value.
fn parse_seg_id(seg: &[u8]) -> (r: Option<usize>)
    ensures
        match r {
            Some(id) => seg_is_valid_id(seg@) && id == seg_id(seg@),
            None => !seg_is_valid_id(seg@),
        },
{
    let n = seg.len();
    if n == 0 {
        return None;
    }
    let z = crate::json::scan_zeros(seg, 0, n);
    proof {
        crate::json::lemma_zeros_run(seg@, 0, n as int);
    }
    if n - z > 20 {
        proof {
            if seg_is_valid_id(seg@) {
                crate::number::lemma_digits_val_zero_prefix(seg@, 0, z as int, n as int);
                crate::number::lemma_digits_val_lower(seg@, z as int, n as int);
                crate::number::lemma_pow10_mono(20, (n - z - 1) as nat);
                lemma_pow10_vals();
                assert(false);
            }
        }
        return None;
    }
    let mut acc: u128 = 0;
    let mut j = z;
    while j < n
        invariant
            z <= j <= n == seg@.len(),
            n - z <= 20,
            forall|k: int| 0 <= k < z ==> seg@[k] == 48,
            forall|k: int| z <= k < j ==> is_digit(seg@[k]),
            acc == digits_val(seg@, z as int, j as int),
            acc < pow10((j - z) as nat),
        decreases n - j,
    {
        let c = seg[j];
        if !(48 <= c && c <= 57) {
            return None;
        }
        proof {
            lemma_pow10_vals();
            crate::number::lemma_pow10_mono((j - z) as nat, 19);
        }
        acc = acc * 10 + ((c - 48) as u128);
        j = j + 1;
    }
    proof {
        lemma_pow10_vals();
        crate::number::lemma_digits_val_zero_prefix(seg@, 0, z as int, n as int);
    }
    if acc <= (usize::MAX as u128) {
        Some(acc as usize)
    } else {
        None
    }
}

/// Maps a request's method and path to its action, exactly as the route
/// table `spec_route` lays it down.
pub fn route(m: &Method, path: &[u8]) -> (r: Action)
    ensures
        r == spec_route(*m, path@),
{
    let n = path.len();
    if crate::bytes::bytes_is(path, "/") || crate::bytes::bytes_is(path, "/index.html")
        || crate::bytes::bytes_is(path, "/index.htm") {
        if *m == Method::Get {
            Action::ServeIndex
        } else {
            Action::Respond { status: 405 }
        }
    } else if crate::bytes::bytes_is(path, "/users") || crate::bytes::bytes_is(path, "/users/") {
        if *m == Method::Get {
            Action::ListUsers
        } else {
            Action::Respond { status: 405 }
        }
    } else {
        match user_item_parts(path) {
            Some((a, b)) => user_action(m, path, a, b),
            None => {
                if crate::bytes::bytes_is(path, "/echo") {
                    if *m == Method::Post {
                        Action::EchoPlain
                    } else {
                        Action::Respond { status: 405 }
                    }
                } else if crate::bytes::bytes_is(path, "/echo/uppercase") {
                    if *m == Method::Post {
                        Action::EchoUppercase
                    } else {
                        Action::Respond { status: 405 }
                    }
                } else if crate::bytes::bytes_is(path, "/echo/reverse") {
                    if *m == Method::Post {
                        Action::EchoReverse
                    } else {
                        Action::Respond { status: 405 }
                    }
                } else if crate::bytes::bytes_is(path, "/random") {
                    if *m == Method::Post {
                        Action::SampleRandom
                    } else {
                        Action::Respond { status: 405 }
                    }
                } else {
                    Action::Respond { status: 404 }
                }
            },
        }
    }
}

/// Recognises the item route's shape and hands out the id segment's span.
fn user_item_parts(path: &[u8]) -> (r: Option<(usize, usize)>)
    ensures
        match r {
            Some((a, b)) => is_user_item_path(path@) && a == 6 && a <= b <= path@.len()
                && user_seg(path@) == path@.subrange(a as int, b as int),
            None => !is_user_item_path(path@),
        },
{
    let n = path.len();
    if !(n >= 6 && span_is(path, 0, 6, "/user/")) {
        return None;
    }
    let e: usize = if n > 6 && path[n - 1] == 47 {
        n - 1
    } else {
        n
    };
    proof {
        assert(user_seg(path@) =~= path@.subrange(6, e as int));
    }
    if n == 6 {
        return Some((6, 6));
    }
    if e == 6 {
        // the rest was one bare slash: this is not the item route
        return None;
    }
    let mut k: usize = 6;
    while k < e
        invariant
            6 < e <= n == path@.len(),
            6 <= k <= e,
            user_seg(path@) == path@.subrange(6, e as int),
            forall|i: int| 6 <= i < k ==> path@[i] != 47,
        decreases e - k,
    {
        if path[k] == 47 {
            proof {
                assert(user_seg(path@)[k - 6] == 47);
            }
            return None;
        }
        k = k + 1;
    }
    proof {
        assert(forall|i: int|
            0 <= i < user_seg(path@).len() ==> user_seg(path@)[i] == path@[i + 6]);
    }
    Some((6, e))
}

/// Decides the item route for the id segment `path[a..b)`.
fn user_action(m: &Method, path: &[u8], a: usize, b: usize) -> (r: Action)
    requires
        a <= b <= path@.len(),
        user_seg(path@) == path@.subrange(a as int, b as int),
    ensures
        r == spec_user_action(*m, path@),
{
    if a == b {
        if *m == Method::Post {
            return Action::CreateUser;
        } else {
            return Action::Respond { status: 400 };
        }
    }
    let seg = vstd::slice::slice_subrange(path, a, b);
    match parse_seg_id(seg) {
        Some(id) => {
            match m {
                Method::Get => Action::GetUser { id },
                Method::Put => Action::UpdateUser { id },
                Method::Delete => Action::DeleteUser { id },
                _ => Action::Respond { status: 405 },
            }
        },
        None => {
            match m {
                Method::Post => Action::CreateUser,
                Method::Get => Action::Respond { status: 404 },
                Method::Put => Action::Respond { status: 404 },
                Method::Delete => Action::Respond { status: 404 },
                _ => Action::Respond { status: 405 },
            }
        },
    }
}

} // verus!
