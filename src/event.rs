//! The document as a stream of pull-reader events, and the primitives that
//! read it: matching a key and skipping a value without materialising it.
use vstd::prelude::*;
use vstd::string::StringSliceAdditionalSpecFns;

verus! {

/// One event of a JSON document as a pull reader delivers it, in document order.
#[derive(Debug, PartialEq, Eq)]
pub enum Event {
    ObjectStart,
    ObjectEnd,
    ArrayStart,
    ArrayEnd,
    /// The name of the next field of the enclosing object.
    Key(Vec<u8>),
    Str(Vec<u8>),
    /// A nonnegative integer that fits in 64 bits.
    Num(u64),
    Bool(bool),
    Null,
    /// Any other scalar (a negative or fractional number).
    OtherScalar,
}

/// Where the value that starts at `i` ends, scanning with `depth` containers
/// open; `None` when the events do not form a complete value.
pub open spec fn value_end(s: Seq<Event>, i: int, depth: nat) -> Option<int>
    decreases s.len() - i,
{
    if i < 0 || i >= s.len() {
        None
    } else {
        match s[i] {
            Event::ObjectStart | Event::ArrayStart => value_end(s, i + 1, depth + 1),
            Event::ObjectEnd | Event::ArrayEnd => {
                if depth == 0 {
                    None
                } else if depth == 1 {
                    Some(i + 1)
                } else {
                    value_end(s, i + 1, (depth - 1) as nat)
                }
            },
            Event::Key(_) => {
                if depth == 0 {
                    None
                } else {
                    value_end(s, i + 1, depth)
                }
            },
            _ => {
                if depth == 0 {
                    Some(i + 1)
                } else {
                    value_end(s, i + 1, depth)
                }
            },
        }
    }
}

/// Skips the value that starts at `i`, returning the position just after it.
pub fn skip_value(s: &Vec<Event>, i: usize) -> (r: Option<usize>)
    ensures
        match r {
            Some(j) => value_end(s@, i as int, 0) == Some(j as int) && i < j <= s@.len(),
            None => value_end(s@, i as int, 0) is None,
        },
{
    if i >= s.len() {
        return None;
    }
    let mut k: usize = i;
    let mut depth: usize = 0;
    while k < s.len()
        invariant
            i <= k <= s@.len(),
            depth <= k - i,
            value_end(s@, k as int, depth as nat) == value_end(s@, i as int, 0),
            k > i ==> depth > 0,
        decreases s.len() - k,
    {
        match &s[k] {
            Event::ObjectStart | Event::ArrayStart => {
                depth = depth + 1;
            },
            Event::ObjectEnd | Event::ArrayEnd => {
                if depth == 0 {
                    return None;
                } else if depth == 1 {
                    return Some(k + 1);
                }
                depth = depth - 1;
            },
            Event::Key(_) => {
                if depth == 0 {
                    return None;
                }
            },
            _ => {
                if depth == 0 {
                    return Some(k + 1);
                }
            },
        }
        k = k + 1;
    }
    None
}

/// Whether an array (or else an object) starts at `i`.
pub fn is_start(s: &Vec<Event>, i: usize, array: bool) -> (r: bool)
    ensures
        r == (i < s@.len() && if array { s@[i as int] is ArrayStart } else { s@[i as int] is ObjectStart }),
{
    if i >= s.len() {
        return false;
    }
    match &s[i] {
        Event::ArrayStart => array,
        Event::ObjectStart => !array,
        _ => false,
    }
}

/// Whether two byte strings are equal.
pub fn bytes_eq(a: &Vec<u8>, b: &Vec<u8>) -> (r: bool)
    ensures
        r == (a@ == b@),
{
    if a.len() != b.len() {
        return false;
    }
    let mut i: usize = 0;
    while i < a.len()
        invariant
            a@.len() == b@.len(),
            0 <= i <= a@.len(),
            forall|k: int| 0 <= k < i ==> a@[k] == b@[k],
        decreases a.len() - i,
    {
        if a[i] != b[i] {
            return false;
        }
        i = i + 1;
    }
    assert(a@ =~= b@);
    true
}

/// Whether the key `k` is the name `lit`.
pub fn key_is(k: &Vec<u8>, lit: &str) -> (r: bool)
    ensures
        r == (k@ == lit.spec_bytes()),
{
    let b = lit.as_bytes();
    if k.len() != b.len() {
        return false;
    }
    let mut i: usize = 0;
    while i < k.len()
        invariant
            b@ == lit.spec_bytes(),
            k@.len() == b@.len(),
            0 <= i <= k@.len(),
            forall|j: int| 0 <= j < i ==> k@[j] == b@[j],
        decreases k.len() - i,
    {
        if k[i] != b[i] {
            return false;
        }
        i = i + 1;
    }
    assert(k@ =~= b@);
    true
}

} // verus!
