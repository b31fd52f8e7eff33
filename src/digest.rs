//! The digest algorithms that manifests can be written with.
use crate::text::{eq_ignore_ascii_case, eq_ignore_ascii_case_spec};
use digest::Digest;
use vstd::prelude::*;

verus! {

/// A digest algorithm of the BagIt specification.
#[derive(Debug, Clone, Copy, PartialEq, Eq, Structural, Hash)]
pub enum DigestAlgorithm {
    Md5,
    Sha1,
    Sha256,
    Sha512,
    Blake2b256,
    Blake2b512,
}

/// The algorithm's name, as it stands in manifest file names.
pub open spec fn algorithm_name(a: DigestAlgorithm) -> Seq<char> {
    match a {
        DigestAlgorithm::Md5 => "md5"@,
        DigestAlgorithm::Sha1 => "sha1"@,
        DigestAlgorithm::Sha256 => "sha256"@,
        DigestAlgorithm::Sha512 => "sha512"@,
        DigestAlgorithm::Blake2b256 => "blake2b256"@,
        DigestAlgorithm::Blake2b512 => "blake2b512"@,
    }
}

/// The position of the algorithm in the order in which manifests are listed and written.
pub open spec fn algorithm_rank(a: DigestAlgorithm) -> nat {
    match a {
        DigestAlgorithm::Md5 => 0,
        DigestAlgorithm::Sha1 => 1,
        DigestAlgorithm::Sha256 => 2,
        DigestAlgorithm::Sha512 => 3,
        DigestAlgorithm::Blake2b256 => 4,
        DigestAlgorithm::Blake2b512 => 5,
    }
}

/// All algorithms, in order.
pub open spec fn all_algorithms() -> Seq<DigestAlgorithm> {
    seq![
        DigestAlgorithm::Md5,
        DigestAlgorithm::Sha1,
        DigestAlgorithm::Sha256,
        DigestAlgorithm::Sha512,
        DigestAlgorithm::Blake2b256,
        DigestAlgorithm::Blake2b512,
    ]
}

/// The algorithms of a set, each once, in order.
pub open spec fn in_order(s: Set<DigestAlgorithm>) -> Seq<DigestAlgorithm> {
    all_algorithms().filter(|a: DigestAlgorithm| s.contains(a))
}

/// The sequence holds each algorithm at most once, in order.
pub open spec fn sorted_unique(s: Seq<DigestAlgorithm>) -> bool {
    forall|i: int, j: int| 0 <= i < j < s.len() ==> algorithm_rank(#[trigger] s[i]) < algorithm_rank(#[trigger] s[j])
}

pub fn algorithm_index(a: DigestAlgorithm) -> (r: usize)
    ensures
        r == algorithm_rank(a),
{
    match a {
        DigestAlgorithm::Md5 => 0,
        DigestAlgorithm::Sha1 => 1,
        DigestAlgorithm::Sha256 => 2,
        DigestAlgorithm::Sha512 => 3,
        DigestAlgorithm::Blake2b256 => 4,
        DigestAlgorithm::Blake2b512 => 5,
    }
}

fn algorithm_at(i: usize) -> (r: DigestAlgorithm)
    requires
        i < 6,
    ensures
        r == all_algorithms()[i as int],
        algorithm_rank(r) == i,
{
    if i == 0 {
        DigestAlgorithm::Md5
    } else if i == 1 {
        DigestAlgorithm::Sha1
    } else if i == 2 {
        DigestAlgorithm::Sha256
    } else if i == 3 {
        DigestAlgorithm::Sha512
    } else if i == 4 {
        DigestAlgorithm::Blake2b256
    } else {
        DigestAlgorithm::Blake2b512
    }
}

proof fn lemma_all_algorithms()
    ensures
        all_algorithms().len() == 6,
        forall|a: DigestAlgorithm| #[trigger] all_algorithms()[algorithm_rank(a) as int] == a,
        forall|i: int| 0 <= i < 6 ==> algorithm_rank(#[trigger] all_algorithms()[i]) == i,
{
}

/// The algorithms whose flag is set, in order.
pub fn algorithms_in_order(flags: &[bool; 6]) -> (r: Vec<DigestAlgorithm>)
    ensures
        r@ == in_order(Set::new(|a: DigestAlgorithm| flags@[algorithm_rank(a) as int])),
        sorted_unique(r@),
{
    let ghost s = Set::new(|a: DigestAlgorithm| flags@[algorithm_rank(a) as int]);
    let ghost p = |a: DigestAlgorithm| s.contains(a);
    proof {
        lemma_all_algorithms();
    }
    let mut out: Vec<DigestAlgorithm> = Vec::new();
    let mut i: usize = 0;
    assert(all_algorithms().take(0).filter(p) =~= Seq::<DigestAlgorithm>::empty()) by {
        reveal(Seq::filter);
    }
    while i < 6
        invariant
            i <= 6,
            out@ == all_algorithms().take(i as int).filter(p),
            forall|j: int| 0 <= j < out@.len() ==> algorithm_rank(#[trigger] out@[j]) < i,
            sorted_unique(out@),
            all_algorithms().len() == 6,
            s == Set::new(|a: DigestAlgorithm| flags@[algorithm_rank(a) as int]),
            p == (|a: DigestAlgorithm| s.contains(a)),
            forall|a: DigestAlgorithm| #[trigger] all_algorithms()[algorithm_rank(a) as int] == a,
            forall|k: int| 0 <= k < 6 ==> algorithm_rank(#[trigger] all_algorithms()[k]) == k,
        decreases 6 - i,
    {
        let a = algorithm_at(i);
        proof {
            assert(all_algorithms().take(i + 1).drop_last() =~= all_algorithms().take(i as int));
            reveal(Seq::filter);
        }
        if flags[i] {
            out.push(a);
            assert(s.contains(a));
        } else {
            assert(!s.contains(a));
        }
        i = i + 1;
    }
    assert(all_algorithms().take(6) =~= all_algorithms());
    out
}

impl DigestAlgorithm {
    /// The algorithm's name, as it stands in manifest file names.
    pub fn name(&self) -> (r: &'static str)
        ensures
            r@ == algorithm_name(*self),
    {
        match self {
            DigestAlgorithm::Md5 => "md5",
            DigestAlgorithm::Sha1 => "sha1",
            DigestAlgorithm::Sha256 => "sha256",
            DigestAlgorithm::Sha512 => "sha512",
            DigestAlgorithm::Blake2b256 => "blake2b256",
            DigestAlgorithm::Blake2b512 => "blake2b512",
        }
    }

    /// The algorithm with the given name, matched ASCII-case-insensitively.
    pub fn from_name(token: &str) -> (r: Option<DigestAlgorithm>)
        ensures
            r matches Some(a) ==> eq_ignore_ascii_case_spec(token@, algorithm_name(a)),
            r is None ==> forall|a: DigestAlgorithm| !eq_ignore_ascii_case_spec(token@, #[trigger] algorithm_name(a)),
    {
        if eq_ignore_ascii_case(token, "md5") {
            Some(DigestAlgorithm::Md5)
        } else if eq_ignore_ascii_case(token, "sha1") {
            Some(DigestAlgorithm::Sha1)
        } else if eq_ignore_ascii_case(token, "sha256") {
            Some(DigestAlgorithm::Sha256)
        } else if eq_ignore_ascii_case(token, "sha512") {
            Some(DigestAlgorithm::Sha512)
        } else if eq_ignore_ascii_case(token, "blake2b256") {
            Some(DigestAlgorithm::Blake2b256)
        } else if eq_ignore_ascii_case(token, "blake2b512") {
            Some(DigestAlgorithm::Blake2b512)
        } else {
            None
        }
    }
}

/// MD5 of the bytes.
pub uninterp spec fn md5_of(b: Seq<u8>) -> Seq<u8>;

/// SHA-1 of the bytes.
pub uninterp spec fn sha1_of(b: Seq<u8>) -> Seq<u8>;

/// SHA-256 of the bytes.
pub uninterp spec fn sha256_of(b: Seq<u8>) -> Seq<u8>;

/// SHA-512 of the bytes.
pub uninterp spec fn sha512_of(b: Seq<u8>) -> Seq<u8>;

/// BLAKE2b with a 256-bit output, of the bytes.
pub uninterp spec fn blake2b256_of(b: Seq<u8>) -> Seq<u8>;

/// BLAKE2b with a 512-bit output, of the bytes.
pub uninterp spec fn blake2b512_of(b: Seq<u8>) -> Seq<u8>;

/// The digest that the algorithm defines over the bytes.
pub open spec fn digest_of(a: DigestAlgorithm, b: Seq<u8>) -> Seq<u8> {
    match a {
        DigestAlgorithm::Md5 => md5_of(b),
        DigestAlgorithm::Sha1 => sha1_of(b),
        DigestAlgorithm::Sha256 => sha256_of(b),
        DigestAlgorithm::Sha512 => sha512_of(b),
        DigestAlgorithm::Blake2b256 => blake2b256_of(b),
        DigestAlgorithm::Blake2b512 => blake2b512_of(b),
    }
}

/// The length in bytes of the algorithm's digest.
pub open spec fn digest_len(a: DigestAlgorithm) -> nat {
    match a {
        DigestAlgorithm::Md5 => 16,
        DigestAlgorithm::Sha1 => 20,
        DigestAlgorithm::Sha256 => 32,
        DigestAlgorithm::Sha512 => 64,
        DigestAlgorithm::Blake2b256 => 32,
        DigestAlgorithm::Blake2b512 => 64,
    }
}

/// The running state of md-5's `Md5`.
#[verifier::external_body]
pub struct Md5State(md5::Md5);

/// The running state of sha1's `Sha1`.
#[verifier::external_body]
pub struct Sha1State(sha1::Sha1);

/// The running state of sha2's `Sha256`.
#[verifier::external_body]
pub struct Sha256State(sha2::Sha256);

/// The running state of sha2's `Sha512`.
#[verifier::external_body]
pub struct Sha512State(sha2::Sha512);

/// The running state of blake2's `Blake2b` with a 32-byte output.
#[verifier::external_body]
pub struct Blake2b256State(blake2::Blake2b<digest::consts::U32>);

/// The running state of blake2's `Blake2b512`.
#[verifier::external_body]
pub struct Blake2b512State(blake2::Blake2b512);

/// The running state of one hash function.
pub enum HasherState {
    Md5(Md5State),
    Sha1(Sha1State),
    Sha256(Sha256State),
    Sha512(Sha512State),
    Blake2b256(Blake2b256State),
    Blake2b512(Blake2b512State),
}

/// One digest algorithm, fed bytes piece by piece.
pub struct Hasher {
    state: HasherState,
    algorithm: DigestAlgorithm,
    fed: Ghost<Seq<u8>>,
}

impl Hasher {
    pub closed spec fn algorithm_spec(&self) -> DigestAlgorithm {
        self.algorithm
    }

    /// The bytes fed so far.
    pub closed spec fn fed(&self) -> Seq<u8> {
        self.fed@
    }

    /// Relies on `Digest::new` of md-5, sha1, sha2 and blake2: a hasher that has been fed nothing.
    #[verifier::external_body]
    pub fn new(algorithm: DigestAlgorithm) -> (r: Self)
        ensures
            r.algorithm_spec() == algorithm,
            r.fed() == Seq::<u8>::empty(),
    {
        let state = match algorithm {
            DigestAlgorithm::Md5 => HasherState::Md5(Md5State(md5::Md5::new())),
            DigestAlgorithm::Sha1 => HasherState::Sha1(Sha1State(sha1::Sha1::new())),
            DigestAlgorithm::Sha256 => HasherState::Sha256(Sha256State(sha2::Sha256::new())),
            DigestAlgorithm::Sha512 => HasherState::Sha512(Sha512State(sha2::Sha512::new())),
            DigestAlgorithm::Blake2b256 => HasherState::Blake2b256(Blake2b256State(blake2::Blake2b::new())),
            DigestAlgorithm::Blake2b512 => HasherState::Blake2b512(Blake2b512State(blake2::Blake2b512::new())),
        };
        Hasher { state, algorithm, fed: Ghost(Seq::empty()) }
    }

    /// Relies on `Digest::update`: the bytes are appended to what the hasher has been fed.
    #[verifier::external_body]
    pub fn update(&mut self, bytes: &[u8])
        ensures
            final(self).fed() == old(self).fed() + bytes@,
            final(self).algorithm_spec() == old(self).algorithm_spec(),
    {
        match &mut self.state {
            HasherState::Md5(h) => h.0.update(bytes),
            HasherState::Sha1(h) => h.0.update(bytes),
            HasherState::Sha256(h) => h.0.update(bytes),
            HasherState::Sha512(h) => h.0.update(bytes),
            HasherState::Blake2b256(h) => h.0.update(bytes),
            HasherState::Blake2b512(h) => h.0.update(bytes),
        }
    }

    /// Relies on `Digest::finalize`: the digest, by the hasher's algorithm, of every byte fed;
    /// 16, 20, 32, 64, 32 and 64 bytes long for MD5, SHA-1, SHA-256, SHA-512, BLAKE2b-256 and
    /// BLAKE2b-512.
    #[verifier::external_body]
    pub fn finalize(self) -> (r: Vec<u8>)
        ensures
            self.algorithm_spec() == DigestAlgorithm::Md5 ==> r@ == md5_of(self.fed()),
            self.algorithm_spec() == DigestAlgorithm::Sha1 ==> r@ == sha1_of(self.fed()),
            self.algorithm_spec() == DigestAlgorithm::Sha256 ==> r@ == sha256_of(self.fed()),
            self.algorithm_spec() == DigestAlgorithm::Sha512 ==> r@ == sha512_of(self.fed()),
            self.algorithm_spec() == DigestAlgorithm::Blake2b256 ==> r@ == blake2b256_of(self.fed()),
            self.algorithm_spec() == DigestAlgorithm::Blake2b512 ==> r@ == blake2b512_of(self.fed()),
            r@.len() == digest_len(self.algorithm_spec()),
    {
        match self.state {
            HasherState::Md5(h) => h.0.finalize().to_vec(),
            HasherState::Sha1(h) => h.0.finalize().to_vec(),
            HasherState::Sha256(h) => h.0.finalize().to_vec(),
            HasherState::Sha512(h) => h.0.finalize().to_vec(),
            HasherState::Blake2b256(h) => h.0.finalize().to_vec(),
            HasherState::Blake2b512(h) => h.0.finalize().to_vec(),
        }
    }
}

/// The lowercase hexadecimal digit of a value below 16.
pub open spec fn hex_digit(d: nat) -> char {
    if d < 10 {
        crate::text::digit_char(d)
    } else if d == 10 {
        'a'
    } else if d == 11 {
        'b'
    } else if d == 12 {
        'c'
    } else if d == 13 {
        'd'
    } else if d == 14 {
        'e'
    } else {
        'f'
    }
}

/// Bytes written as lowercase hexadecimal, two digits each, without separators.
pub open spec fn hex_spec(b: Seq<u8>) -> Seq<char>
    decreases b.len(),
{
    if b.len() == 0 {
        Seq::empty()
    } else {
        hex_spec(b.drop_last()) + seq![hex_digit(b.last() as nat / 16), hex_digit(b.last() as nat % 16)]
    }
}

fn hex_digit_of(d: u8) -> (c: char)
    requires
        d < 16,
    ensures
        c == hex_digit(d as nat),
{
    if d < 10 {
        crate::text::digit_of(d as u64)
    } else if d == 10 {
        'a'
    } else if d == 11 {
        'b'
    } else if d == 12 {
        'c'
    } else if d == 13 {
        'd'
    } else if d == 14 {
        'e'
    } else {
        'f'
    }
}

/// Bytes written as lowercase hexadecimal.
pub fn hex_string(bytes: &Vec<u8>) -> (r: String)
    ensures
        r@ == hex_spec(bytes@),
{
    let mut out = String::new();
    let mut i: usize = 0;
    assert(bytes@.take(0) =~= Seq::<u8>::empty());
    while i < bytes.len()
        invariant
            i <= bytes@.len(),
            out@ == hex_spec(bytes@.take(i as int)),
        decreases bytes@.len() - i,
    {
        let b = bytes[i];
        crate::text::push_char(&mut out, hex_digit_of(b / 16));
        crate::text::push_char(&mut out, hex_digit_of(b % 16));
        proof {
            assert(bytes@.take(i + 1).drop_last() =~= bytes@.take(i as int));
            assert(bytes@.take(i + 1).last() == b);
        }
        i = i + 1;
        assert(out@ =~= hex_spec(bytes@.take(i as int)));
    }
    assert(bytes@.take(i as int) =~= bytes@);
    out
}

/// Each algorithm has at most one digest in the list.
pub open spec fn digests_unique(ds: Seq<(DigestAlgorithm, String)>) -> bool {
    forall|i: int, j: int| 0 <= i < j < ds.len() ==> (#[trigger] ds[i]).0 != (#[trigger] ds[j]).0
}

/// A sink that feeds every byte written to it to each selected algorithm at once.
pub struct MultiDigestWriter {
    hashers: Vec<Hasher>,
    algorithms: Ghost<Seq<DigestAlgorithm>>,
    fed: Ghost<Seq<u8>>,
}

impl MultiDigestWriter {
    pub closed spec fn wf(&self) -> bool {
        &&& self.hashers@.len() == self.algorithms@.len()
        &&& forall|i: int| 0 <= i < self.hashers@.len() ==> (#[trigger] self.hashers@[i]).algorithm_spec() == self.algorithms@[i]
            && self.hashers@[i].fed() == self.fed@
    }

    /// The selected algorithms, in order.
    pub closed spec fn algorithms(&self) -> Seq<DigestAlgorithm> {
        self.algorithms@
    }

    /// The bytes written so far.
    pub closed spec fn fed(&self) -> Seq<u8> {
        self.fed@
    }

    pub fn new(algorithms: &[DigestAlgorithm]) -> (r: Self)
        ensures
            r.wf(),
            r.algorithms() == algorithms@,
            r.fed() == Seq::<u8>::empty(),
    {
        let mut hashers: Vec<Hasher> = Vec::new();
        let mut i: usize = 0;
        while i < algorithms.len()
            invariant
                i <= algorithms@.len(),
                hashers@.len() == i,
                forall|j: int| 0 <= j < i ==> (#[trigger] hashers@[j]).algorithm_spec() == algorithms@[j] && hashers@[j].fed() == Seq::<u8>::empty(),
            decreases algorithms@.len() - i,
        {
            hashers.push(Hasher::new(algorithms[i]));
            i = i + 1;
        }
        Self { hashers, algorithms: Ghost(algorithms@), fed: Ghost(Seq::empty()) }
    }

    /// Feeds the bytes to every algorithm.
    pub fn update(&mut self, bytes: &[u8])
        requires
            old(self).wf(),
        ensures
            final(self).wf(),
            final(self).algorithms() == old(self).algorithms(),
            final(self).fed() == old(self).fed() + bytes@,
    {
        let ghost old_hashers = self.hashers@;
        let ghost fed = self.fed@ + bytes@;
        let n = self.hashers.len();
        let mut reversed: Vec<Hasher> = Vec::new();
        while self.hashers.len() > 0
            invariant
                n == old_hashers.len(),
                self.hashers@.len() + reversed@.len() == n,
                self.hashers@ == old_hashers.take(self.hashers@.len() as int),
                forall|j: int| 0 <= j < reversed@.len() ==> (#[trigger] reversed@[j]).algorithm_spec() == old_hashers[n - 1 - j].algorithm_spec()
                    && reversed@[j].fed() == fed,
                forall|j: int| 0 <= j < n ==> (#[trigger] old_hashers[j]).fed() == old(self).fed@,
                forall|j: int| 0 <= j < n ==> (#[trigger] old_hashers[j]).algorithm_spec() == old(self).algorithms@[j],
                fed == old(self).fed@ + bytes@,
                self.algorithms@ == old(self).algorithms@,
                self.algorithms@.len() == n,
            decreases self.hashers@.len(),
        {
            let mut h = self.hashers.pop().unwrap();
            h.update(bytes);
            reversed.push(h);
            assert(self.hashers@ =~= old_hashers.take(self.hashers@.len() as int));
        }
        while reversed.len() > 0
            invariant
                n == old_hashers.len(),
                self.hashers@.len() + reversed@.len() == n,
                forall|j: int| 0 <= j < reversed@.len() ==> (#[trigger] reversed@[j]).algorithm_spec() == old_hashers[n - 1 - j].algorithm_spec()
                    && reversed@[j].fed() == fed,
                forall|j: int| 0 <= j < self.hashers@.len() ==> (#[trigger] self.hashers@[j]).algorithm_spec() == old_hashers[j].algorithm_spec()
                    && self.hashers@[j].fed() == fed,
                forall|j: int| 0 <= j < n ==> (#[trigger] old_hashers[j]).algorithm_spec() == old(self).algorithms@[j],
                self.algorithms@ == old(self).algorithms@,
                self.algorithms@.len() == n,
            decreases reversed@.len(),
        {
            let h = reversed.pop().unwrap();
            self.hashers.push(h);
        }
        self.fed = Ghost(fed);
    }

    /// The lowercase hex digest of each algorithm over every byte written, in the order of the
    /// algorithms.
    pub fn finalize_hex(self) -> (r: Vec<(DigestAlgorithm, String)>)
        requires
            self.wf(),
        ensures
            r@.len() == self.algorithms().len(),
            forall|i: int| 0 <= i < r@.len() ==> (#[trigger] r@[i]).0 == self.algorithms()[i]
                && r@[i].1@ == hex_spec(digest_of(self.algorithms()[i], self.fed())),
            sorted_unique(self.algorithms()) ==> digests_unique(r@),
    {
        let ghost algs = self.algorithms@;
        let ghost fed = self.fed@;
        let mut hashers = self.hashers;
        let n = hashers.len();
        let mut reversed: Vec<(DigestAlgorithm, String)> = Vec::new();
        while hashers.len() > 0
            invariant
                n == algs.len(),
                hashers@.len() + reversed@.len() == n,
                forall|j: int| 0 <= j < hashers@.len() ==> (#[trigger] hashers@[j]).algorithm_spec() == algs[j] && hashers@[j].fed() == fed,
                forall|j: int| 0 <= j < reversed@.len() ==> (#[trigger] reversed@[j]).0 == algs[n - 1 - j]
                    && reversed@[j].1@ == hex_spec(digest_of(algs[n - 1 - j], fed)),
            decreases hashers@.len(),
        {
            let h = hashers.pop().unwrap();
            let a = algorithm_of(&h);
            let digest = h.finalize();
            reversed.push((a, hex_string(&digest)));
        }
        let mut out: Vec<(DigestAlgorithm, String)> = Vec::new();
        while reversed.len() > 0
            invariant
                n == algs.len(),
                out@.len() + reversed@.len() == n,
                forall|j: int| 0 <= j < reversed@.len() ==> (#[trigger] reversed@[j]).0 == algs[n - 1 - j]
                    && reversed@[j].1@ == hex_spec(digest_of(algs[n - 1 - j], fed)),
                forall|j: int| 0 <= j < out@.len() ==> (#[trigger] out@[j]).0 == algs[j] && out@[j].1@ == hex_spec(digest_of(algs[j], fed)),
            decreases reversed@.len(),
        {
            let e = reversed.pop().unwrap();
            out.push(e);
        }
        proof {
            if sorted_unique(algs) {
                assert forall|i: int, j: int| 0 <= i < j < out@.len() implies (#[trigger] out@[i]).0 != (#[trigger] out@[j]).0 by {
                    assert(algorithm_rank(algs[i]) < algorithm_rank(algs[j]));
                }
            }
        }
        out
    }
}

fn algorithm_of(h: &Hasher) -> (r: DigestAlgorithm)
    ensures
        r == h.algorithm_spec(),
{
    h.algorithm
}

} // verus!
