//! Immutable capture of an HTTP outcome: status code, ordered header list
//! (duplicates and order preserved) and body bytes. Once a snapshot is
//! committed for a slot it is replayed byte-identically to every later
//! attempt.

use vstd::prelude::*;

verus! {

/// One header: name and value, as raw bytes.
pub struct HeaderPair {
    pub name: Vec<u8>,
    pub value: Vec<u8>,
}

impl View for HeaderPair {
    type V = (Seq<u8>, Seq<u8>);

    open spec fn view(&self) -> (Seq<u8>, Seq<u8>) {
        (self.name@, self.value@)
    }
}

/// Mathematical model of a snapshot.
#[verifier::ext_equal]
pub struct SnapshotModel {
    pub status: u16,
    pub headers: Seq<(Seq<u8>, Seq<u8>)>,
    pub body: Seq<u8>,
}

/// An HTTP outcome captured for replay. Immutable once committed.
pub struct ResponseSnapshot {
    pub status: u16,
    pub headers: Vec<HeaderPair>,
    pub body: Vec<u8>,
}

impl View for ResponseSnapshot {
    type V = SnapshotModel;

    open spec fn view(&self) -> SnapshotModel {
        SnapshotModel {
            status: self.status,
            headers: Seq::new(self.headers@.len(), |i: int| self.headers@[i]@),
            body: self.body@,
        }
    }
}

/// Copies a byte vector.
fn clone_bytes(v: &Vec<u8>) -> (r: Vec<u8>)
    ensures
        r@ == v@,
{
    let mut r: Vec<u8> = Vec::new();
    let mut i: usize = 0;
    while i < v.len()
        invariant
            i <= v.len(),
            r@ == v@.subrange(0, i as int),
        decreases v.len() - i,
    {
        r.push(v[i]);
        i = i + 1;
        proof {
            assert(r@ =~= v@.subrange(0, i as int));
        }
    }
    proof {
        assert(r@ =~= v@);
    }
    r
}

/// The bytes of the `Location` header name.
pub open spec fn location_header_name() -> Seq<u8> {
    seq![76u8, 111u8, 99u8, 97u8, 116u8, 105u8, 111u8, 110u8]
}

impl ResponseSnapshot {
    /// Builds a snapshot from its parts.
    pub fn new(status: u16, headers: Vec<HeaderPair>, body: Vec<u8>) -> (r: ResponseSnapshot)
        ensures
            r@.status == status,
            r@.headers == Seq::new(headers@.len(), |i: int| headers@[i]@),
            r@.body == body@,
    {
        ResponseSnapshot { status, headers, body }
    }

    /// A deep copy, equal to the original in the model.
    pub fn clone_snapshot(&self) -> (r: ResponseSnapshot)
        ensures
            r@ == self@,
    {
        let mut headers: Vec<HeaderPair> = Vec::new();
        let mut i: usize = 0;
        while i < self.headers.len()
            invariant
                i <= self.headers.len(),
                headers@.len() == i,
                forall|j: int| 0 <= j < i ==> headers@[j]@ == self.headers@[j]@,
            decreases self.headers.len() - i,
        {
            let h = HeaderPair {
                name: clone_bytes(&self.headers[i].name),
                value: clone_bytes(&self.headers[i].value),
            };
            headers.push(h);
            i = i + 1;
        }
        let r = ResponseSnapshot {
            status: self.status,
            headers,
            body: clone_bytes(&self.body),
        };
        proof {
            assert(r@.headers =~= self@.headers);
            assert(r@ =~= self@);
        }
        r
    }

    /// The redirect outcome the newsletter handler records: status 303 with a
    /// single `Location` header and an empty body.
    pub fn see_other(location: Vec<u8>) -> (r: ResponseSnapshot)
        ensures
            r@.status == 303,
            r@.headers =~= seq![(location_header_name(), location@)],
            r@.body =~= Seq::<u8>::empty(),
    {
        let mut name: Vec<u8> = Vec::new();
        name.push(76u8);
        name.push(111u8);
        name.push(99u8);
        name.push(97u8);
        name.push(116u8);
        name.push(105u8);
        name.push(111u8);
        name.push(110u8);
        proof {
            assert(name@ =~= location_header_name());
        }
        let mut headers: Vec<HeaderPair> = Vec::new();
        headers.push(HeaderPair { name, value: location });
        ResponseSnapshot { status: 303, headers, body: Vec::new() }
    }
}

} // verus!
