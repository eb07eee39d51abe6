use vstd::prelude::*;

verus! {

/// Number of bytes in the sidecar suffix.
pub const SUFFIX_LEN: usize = 10;

/// The sidecar suffix `.info.json` as bytes (ASCII codes).
pub open spec fn suffix() -> Seq<u8> {
    seq![46u8, 105u8, 110u8, 102u8, 111u8, 46u8, 106u8, 115u8, 111u8, 110u8]
}

/// Whether a path, as raw bytes, ends in the sidecar suffix.
pub open spec fn has_suffix(path: Seq<u8>) -> bool {
    path.len() >= suffix().len() && path.subrange(path.len() - suffix().len(), path.len() as int)
        == suffix()
}

/// A sidecar path with the suffix cut off its end.
pub open spec fn base_of(path: Seq<u8>) -> Seq<u8> {
    path.subrange(0, path.len() - suffix().len())
}

/// The suffix that youtube-dl gives to a metadata sidecar: `.info.json`.
fn suffix_bytes() -> (r: [u8; 10])
    ensures
        r@ == suffix(),
{
    let r: [u8; 10] = [46, 105, 110, 102, 111, 46, 106, 115, 111, 110];
    assert(r@ =~= suffix());
    r
}

/// Whether `path` ends in `.info.json`, compared byte for byte.
pub fn has_extension(path: &[u8]) -> (r: bool)
    ensures
        r == has_suffix(path@),
{
    let s = suffix_bytes();
    let n: usize = path.len();
    if n < SUFFIX_LEN {
        return false;
    }
    let start: usize = n - SUFFIX_LEN;
    let mut i: usize = 0;
    while i < SUFFIX_LEN
        invariant
            s@ == suffix(),
            start == path@.len() - suffix().len(),
            start + SUFFIX_LEN == n,
            n == path@.len(),
            i <= SUFFIX_LEN,
            forall|j: int| 0 <= j < i ==> path@[start + j] == suffix()[j],
        decreases SUFFIX_LEN - i,
    {
        if path[start + i] != s[i] {
            assert(path@.subrange(start as int, path@.len() as int)[i as int] != suffix()[i as int]);
            return false;
        }
        i = i + 1;
    }
    assert(path@.subrange(start as int, path@.len() as int) =~= suffix());
    true
}

/// Cuts the suffix off a path that is known to end in it.
fn pop_extension(path: Vec<u8>) -> (r: Vec<u8>)
    requires
        has_suffix(path@),
    ensures
        r@ == base_of(path@),
        r@ + suffix() == path@,
{
    proof {
        lemma_base_round_trip(path@);
    }
    let ghost full = path@;
    let mut path = path;
    let len: usize = path.len() - SUFFIX_LEN;
    path.truncate(len);
    assert(path@ =~= base_of(full));
    path
}

/// A path that ends in the sidecar suffix.
pub struct Sidecar {
    path: Vec<u8>,
}

impl View for Sidecar {
    type V = Seq<u8>;

    closed spec fn view(&self) -> Seq<u8> {
        self.path@
    }
}

impl Sidecar {
    #[verifier::type_invariant]
    spec fn inv(self) -> bool {
        has_suffix(self.path@)
    }

    /// Accepts `path` as a sidecar exactly when it ends in the suffix.
    pub fn new(path: Vec<u8>) -> (r: Option<Sidecar>)
        ensures
            r is Some <==> has_suffix(path@),
            r matches Some(s) ==> s@ == path@,
    {
        if has_extension(path.as_slice()) {
            Some(Sidecar { path })
        } else {
            None
        }
    }

    /// The full path of the sidecar.
    pub fn path(&self) -> (r: &[u8])
        ensures
            r@ == self@,
            has_suffix(r@),
    {
        proof {
            use_type_invariant(self);
        }
        self.path.as_slice()
    }

    /// The full path of the sidecar, given back.
    pub fn into_path(self) -> (r: Vec<u8>)
        ensures
            r@ == self@,
            has_suffix(r@),
    {
        proof {
            use_type_invariant(&self);
        }
        self.path
    }

    /// The path that the sidecar shares with its video and thumbnail.
    pub fn into_base_path(self) -> (r: Vec<u8>)
        ensures
            r@ == base_of(self@),
            r@ + suffix() == self@,
    {
        proof {
            use_type_invariant(&self);
            lemma_base_round_trip(self@);
        }
        pop_extension(self.path)
    }
}

/// Cutting the suffix off a sidecar path and appending it again gives back the
/// path, byte for byte.
pub proof fn lemma_base_round_trip(path: Seq<u8>)
    requires
        has_suffix(path),
    ensures
        base_of(path) + suffix() == path,
        base_of(path).len() == path.len() - suffix().len(),
{
    assert(base_of(path) + suffix() =~= path);
}

} // verus!
