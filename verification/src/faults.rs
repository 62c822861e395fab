//! Classifying handling errors: an error whose message mentions the
//! connection or the socket is fatal and must tear the engine down for a
//! reconnect; any other handling error is tolerated.

use vstd::prelude::*;

verus! {

/// `needle` occurs in `hay` starting at position `i`.
pub open spec fn is_substring_at(hay: Seq<u8>, needle: Seq<u8>, i: int) -> bool {
    0 <= i && i + needle.len() <= hay.len() && hay.subrange(i, i + needle.len() as int) == needle
}

/// `needle` occurs somewhere in `hay`.
pub open spec fn contains_substring(hay: Seq<u8>, needle: Seq<u8>) -> bool {
    exists|i: int| is_substring_at(hay, needle, i)
}

/// The byte marker naming the connection in a transport error message.
pub open spec fn connection_marker() -> Seq<u8> {
    seq![99u8, 111u8, 110u8, 110u8, 101u8, 99u8, 116u8, 105u8, 111u8, 110u8]
}

/// The byte marker naming the socket in a transport error message.
pub open spec fn socket_marker() -> Seq<u8> {
    seq![115u8, 111u8, 99u8, 107u8, 101u8, 116u8]
}

/// Whether `needle` occurs in `hay` at position `i`.
fn matches_at(hay: &[u8], needle: &[u8], i: usize) -> (r: bool)
    requires
        i + needle@.len() <= hay@.len(),
    ensures
        r == is_substring_at(hay@, needle@, i as int),
{
    let m = needle.len();
    let hn = hay.len();
    let mut j: usize = 0;
    while j < m
        invariant
            m == needle@.len(),
            hn == hay@.len(),
            i + m <= hn,
            j <= m,
            forall|k: int| 0 <= k < j ==> hay@[i + k] == needle@[k],
        decreases m - j,
    {
        if hay[i + j] != needle[j] {
            proof {
                assert(hay@.subrange(i as int, i + m as int)[j as int] == hay@[i + j]);
            }
            return false;
        }
        j = j + 1;
    }
    proof {
        assert(hay@.subrange(i as int, i + m as int) =~= needle@);
    }
    true
}

/// Whether `needle` occurs anywhere in `hay`.
fn contains_bytes(hay: &[u8], needle: &[u8]) -> (r: bool)
    ensures
        r == contains_substring(hay@, needle@),
{
    let n = hay.len();
    let m = needle.len();
    if m > n {
        proof {
            assert(forall|i: int| !is_substring_at(hay@, needle@, i));
        }
        return false;
    }
    if m == 0 {
        proof {
            assert(hay@.subrange(0, 0) =~= Seq::<u8>::empty());
            assert(needle@ =~= Seq::<u8>::empty());
            assert(is_substring_at(hay@, needle@, 0));
        }
        return true;
    }
    let bound = n - m;
    let mut i: usize = 0;
    while i <= bound
        invariant
            n == hay@.len(),
            m == needle@.len(),
            1 <= m <= n,
            bound == n - m,
            i <= bound + 1,
            forall|k: int| 0 <= k < i ==> !is_substring_at(hay@, needle@, k),
        decreases bound + 1 - i,
    {
        if matches_at(hay, needle, i) {
            return true;
        }
        i = i + 1;
    }
    proof {
        assert(forall|k: int| k > n - m ==> !is_substring_at(hay@, needle@, k));
    }
    false
}

/// Whether a handling error's message marks a transport failure: it
/// mentions the connection or the socket. Such an error is fatal and
/// triggers a reconnect; any other handling error is tolerated.
pub fn is_fatal_error(msg: &[u8]) -> (r: bool)
    ensures
        r == (contains_substring(msg@, connection_marker()) || contains_substring(
            msg@,
            socket_marker(),
        )),
{
    let mut conn: Vec<u8> = Vec::new();
    conn.push(99u8);
    conn.push(111u8);
    conn.push(110u8);
    conn.push(110u8);
    conn.push(101u8);
    conn.push(99u8);
    conn.push(116u8);
    conn.push(105u8);
    conn.push(111u8);
    conn.push(110u8);
    let mut sock: Vec<u8> = Vec::new();
    sock.push(115u8);
    sock.push(111u8);
    sock.push(99u8);
    sock.push(107u8);
    sock.push(101u8);
    sock.push(116u8);
    proof {
        assert(conn@ =~= connection_marker());
        assert(sock@ =~= socket_marker());
    }
    contains_bytes(msg, conn.as_slice()) || contains_bytes(msg, sock.as_slice())
}

} // verus!
