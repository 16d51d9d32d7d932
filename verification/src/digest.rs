//! What identifies the compiler that produced a cache entry: the revision it was built from and a
//! digest of the bitcode that it links into every module.
use vstd::prelude::*;

verus! {

/// The state that the digest of nothing is in.
pub const FNV_OFFSET_BASIS: u64 = 0xcbf2_9ce4_8422_2325;

/// What the digest is multiplied by for each byte.
pub const FNV_PRIME: u64 = 0x0000_0100_0000_01b3;

/// The digest after one more byte.
pub open spec fn fnv_byte(digest: u64, byte: u8) -> u64 {
    (digest ^ (byte as u64)).wrapping_mul(FNV_PRIME)
}

/// The digest after some more bytes.
pub open spec fn fnv_bytes(digest: u64, bytes: Seq<u8>) -> u64
    decreases bytes.len(),
{
    if bytes.len() == 0 {
        digest
    } else {
        fnv_byte(fnv_bytes(digest, bytes.drop_last()), bytes.last())
    }
}

/// The digest of a list of files. Each file is closed by a byte of its own, so that where one file
/// ends and the next begins counts too.
pub open spec fn files_digest(files: Seq<Seq<u8>>) -> u64
    decreases files.len(),
{
    if files.len() == 0 {
        FNV_OFFSET_BASIS
    } else {
        fnv_byte(fnv_bytes(files_digest(files.drop_last()), files.last()), 0xff)
    }
}

/// The lower-case hexadecimal digit for a value below sixteen.
pub open spec fn hex_digit(v: nat) -> char {
    if v < 10 {
        ('0' as nat + v) as char
    } else {
        ('a' as nat + v - 10) as char
    }
}

/// The lowest `width` hexadecimal digits of `n`, most significant first, with leading zeros.
pub open spec fn hex_padded(n: nat, width: nat) -> Seq<char>
    decreases width,
{
    if width == 0 {
        Seq::empty()
    } else {
        hex_padded(n / 16, (width - 1) as nat).push(hex_digit(n % 16))
    }
}

/// The identity of a compiler: revision, digest and the marker of the code that it emits.
pub open spec fn version_text(git_sha: Seq<char>, digest: u64) -> Seq<char> {
    git_sha + "/"@ + hex_padded(digest as nat, 16) + "/fp8-inline-r1"@
}

/// Digest of the embedded implementation modules, taken file by file and, within a file, in pieces
/// of any size.
pub struct PtxImplDigest {
    state: u64,
    files: Ghost<Seq<Seq<u8>>>,
    open: Ghost<Seq<u8>>,
}

impl PtxImplDigest {
    /// The files that have been closed.
    pub closed spec fn files(&self) -> Seq<Seq<u8>> {
        self.files@
    }

    /// The bytes of the file that is being read.
    pub closed spec fn open_file(&self) -> Seq<u8> {
        self.open@
    }

    /// The state is the digest of what has been read.
    pub closed spec fn wf(&self) -> bool {
        self.state == fnv_bytes(files_digest(self.files@), self.open@)
    }

    /// A digest of nothing.
    pub fn new() -> (digest: Self)
        ensures
            digest.wf(),
            digest.files() == Seq::<Seq<u8>>::empty(),
            digest.open_file() == Seq::<u8>::empty(),
    {
        PtxImplDigest { state: FNV_OFFSET_BASIS, files: Ghost(Seq::empty()), open: Ghost(Seq::empty()) }
    }

    /// Takes the next piece of the current file.
    pub fn update(&mut self, piece: &[u8])
        requires
            old(self).wf(),
        ensures
            final(self).wf(),
            final(self).files() == old(self).files(),
            final(self).open_file() == old(self).open_file() + piece@,
    {
        let ghost before = self.open@;
        let mut state: u64 = self.state;
        let ghost start = state;
        let mut i: usize = 0;
        assert(piece@.take(0) =~= Seq::empty());
        while i < piece.len()
            invariant
                i <= piece@.len(),
                state == fnv_bytes(start, piece@.take(i as int)),
            decreases piece@.len() - i,
        {
            assert(piece@.take(i + 1).drop_last() =~= piece@.take(i as int));
            state = (state ^ (piece[i] as u64)).wrapping_mul(FNV_PRIME);
            i += 1;
        }
        assert(piece@.take(i as int) =~= piece@);
        proof {
            pieces_do_not_matter(files_digest(self.files@), before, piece@);
        }
        self.state = state;
        self.open = Ghost(before + piece@);
    }

    /// Closes the current file.
    pub fn end_file(&mut self)
        requires
            old(self).wf(),
        ensures
            final(self).wf(),
            final(self).files() == old(self).files().push(old(self).open_file()),
            final(self).open_file() == Seq::<u8>::empty(),
    {
        let ghost files = self.files@;
        let ghost open = self.open@;
        self.state = (self.state ^ 0xff).wrapping_mul(FNV_PRIME);
        self.files = Ghost(files.push(open));
        self.open = Ghost(Seq::empty());
        assert(files.push(open).drop_last() =~= files);
    }

    /// The digest of the closed files.
    pub fn value(&self) -> (digest: u64)
        requires
            self.wf(),
            self.open_file() == Seq::<u8>::empty(),
        ensures
            digest == files_digest(self.files()),
    {
        self.state
    }
}

/// The digest of a list of files.
pub fn ptx_impl_digest(files: &Vec<Vec<u8>>) -> (digest: u64)
    ensures
        digest == files_digest(files@.map_values(|f: Vec<u8>| f@)),
{
    let mut digest = PtxImplDigest::new();
    let ghost contents = files@.map_values(|f: Vec<u8>| f@);
    let mut i: usize = 0;
    assert(contents.take(0) =~= Seq::empty());
    while i < files.len()
        invariant
            i <= files@.len(),
            contents == files@.map_values(|f: Vec<u8>| f@),
            digest.wf(),
            digest.files() == contents.take(i as int),
            digest.open_file() == Seq::<u8>::empty(),
        decreases files@.len() - i,
    {
        digest.update(files[i].as_slice());
        assert(Seq::<u8>::empty() + files@[i as int]@ =~= contents[i as int]);
        digest.end_file();
        assert(contents.take(i + 1) =~= contents.take(i as int).push(contents[i as int]));
        i += 1;
    }
    assert(contents.take(i as int) =~= contents);
    digest.value()
}

/// The lower-case hexadecimal digit for a value below sixteen.
fn hex_char(v: u8) -> (c: char)
    requires
        v < 16,
    ensures
        c == hex_digit(v as nat),
{
    if v < 10 {
        (48 + v) as char
    } else {
        (87 + v) as char
    }
}

/// Appends the lowest `width` hexadecimal digits of `n`.
fn push_hex(out: &mut String, n: u64, width: u32)
    ensures
        final(out)@ == old(out)@ + hex_padded(n as nat, width as nat),
    decreases width,
{
    let ghost before = out@;
    if width > 0 {
        push_hex(out, n / 16, width - 1);
        out.push(hex_char((n % 16) as u8));
    }
    assert(out@ =~= before + hex_padded(n as nat, width as nat));
}

/// What identifies the compiler that produced a cache entry.
///
/// This has to move whenever the generated code can change, or a cache written by one build is
/// served to another and the difference is invisible. The revision does not see the bitcode, which
/// can be rebuilt without a code change, and neither of them sees a change to the translation
/// passes that has not landed yet: the marker at the end is for that.
pub fn zluda_version(git_sha: &str, digest: u64) -> (version: String)
    ensures
        version@ == version_text(git_sha@, digest),
{
    let mut version = git_sha.to_owned();
    version.append("/");
    push_hex(&mut version, digest, 16);
    version.append("/fp8-inline-r1");
    version
}

/// Whether the first two bytes of a file are those of a dynamic library, rather than of the stub
/// that stands in for one whose contents have not been fetched.
pub fn check_lfs_file(magic: [u8; 2]) -> (fetched: bool)
    ensures
        fetched == (magic@[0] == 0x4d && magic@[1] == 0x5a),
{
    magic[0] == 0x4d && magic[1] == 0x5a
}

/// It does not matter in which pieces a file is read.
pub proof fn pieces_do_not_matter(digest: u64, first: Seq<u8>, second: Seq<u8>)
    ensures
        fnv_bytes(fnv_bytes(digest, first), second) == fnv_bytes(digest, first + second),
    decreases second.len(),
{
    if second.len() == 0 {
        assert(first + second =~= first);
    } else {
        pieces_do_not_matter(digest, first, second.drop_last());
        assert((first + second).drop_last() =~= first + second.drop_last());
    }
}

/// The digest stands at a fixed width, sixteen digits.
pub proof fn hex_width(n: nat, width: nat)
    ensures
        hex_padded(n, width).len() == width,
    decreases width,
{
    if width > 0 {
        hex_width(n / 16, (width - 1) as nat);
    }
}

/// Different values have different digits.
proof fn lemma_hex_injective(a: nat, b: nat, width: nat)
    requires
        hex_padded(a, width) == hex_padded(b, width),
        a < vstd::arithmetic::power::pow(16, width),
        b < vstd::arithmetic::power::pow(16, width),
    ensures
        a == b,
    decreases width,
{
    reveal(vstd::arithmetic::power::pow);
    if width > 0 {
        let w = (width - 1) as nat;
        let x = hex_padded(a / 16, w);
        let y = hex_padded(b / 16, w);
        assert(x.push(hex_digit(a % 16)).drop_last() =~= x);
        assert(y.push(hex_digit(b % 16)).drop_last() =~= y);
        assert(x.push(hex_digit(a % 16)).last() == y.push(hex_digit(b % 16)).last());
        let p = vstd::arithmetic::power::pow(16, w);
        assert(a / 16 < p && b / 16 < p) by (nonlinear_arith)
            requires
                a < 16 * p,
                b < 16 * p,
        ;
        lemma_hex_injective(a / 16, b / 16, w);
    }
}

/// Two compilers of the same revision have the same identity only if the bitcode that they link has
/// the same digest: a change of the digest is a change of the identity.
pub proof fn version_moves_with_the_digest(git_sha: Seq<char>, a: u64, b: u64)
    requires
        version_text(git_sha, a) == version_text(git_sha, b),
    ensures
        a == b,
{
    let n = git_sha.len() as int;
    hex_width(a as nat, 16);
    hex_width(b as nat, 16);
    reveal_strlit("/");
    assert(version_text(git_sha, a).subrange(n + 1, n + 17) =~= hex_padded(a as nat, 16));
    assert(version_text(git_sha, b).subrange(n + 1, n + 17) =~= hex_padded(b as nat, 16));
    assert(vstd::arithmetic::power::pow(16, 16) == 0x1_0000_0000_0000_0000) by {
        reveal_with_fuel(vstd::arithmetic::power::pow, 17);
    }
    lemma_hex_injective(a as nat, b as nat, 16);
}

/// Multiplying by the prime keeps the lowest 64 bits.
proof fn lemma_times_prime(x: u64)
    ensures
        x.wrapping_mul(FNV_PRIME) == (x * 0x100_0000_01b3) % 0x1_0000_0000_0000_0000,
{
}

/// The digest of no files is the offset basis, and a file without content closes with a byte of ones.
pub proof fn empty_file_counts(files: &Vec<Vec<u8>>, longer: &Vec<Vec<u8>>, digest: u64, after: u64)
    requires
        call_ensures(ptx_impl_digest, (files,), digest),
        call_ensures(ptx_impl_digest, (longer,), after),
        longer@.len() == files@.len() + 1,
        longer@.drop_last() == files@,
        longer@.last()@.len() == 0,
    ensures
        files@.len() == 0 ==> digest == 0xcbf2_9ce4_8422_2325,
        after == ((digest ^ 0xff) * 0x100_0000_01b3) % 0x1_0000_0000_0000_0000,
{
    let a = files@.map_values(|f: Vec<u8>| f@);
    let b = longer@.map_values(|f: Vec<u8>| f@);
    assert(b.drop_last() =~= a);
    assert(b.last() == longer@.last()@);
    lemma_times_prime(digest ^ 0xff);
}

/// Every byte counts, in its order and by the rule of the hash: one byte more at the end of the last
/// file changes the state that the file was closed in by that byte and one multiplication.
pub proof fn every_byte_counts(
    files: &Vec<Vec<u8>>,
    longer: &Vec<Vec<u8>>,
    byte: u8,
    digest: u64,
    after: u64,
) -> (state: u64)
    requires
        call_ensures(ptx_impl_digest, (files,), digest),
        call_ensures(ptx_impl_digest, (longer,), after),
        files@.len() > 0,
        longer@.len() == files@.len(),
        longer@.drop_last() == files@.drop_last(),
        longer@.last()@ == files@.last()@.push(byte),
    ensures
        digest == ((state ^ 0xff) * 0x100_0000_01b3) % 0x1_0000_0000_0000_0000,
        ({
            let next = (((state ^ (byte as u64)) * 0x100_0000_01b3) % 0x1_0000_0000_0000_0000) as u64;
            after == ((next ^ 0xff) * 0x100_0000_01b3) % 0x1_0000_0000_0000_0000
        }),
{
    let a = files@.map_values(|f: Vec<u8>| f@);
    let b = longer@.map_values(|f: Vec<u8>| f@);
    assert(b.drop_last() =~= a.drop_last()) by {
        assert forall|i: int| 0 <= i < a.len() - 1 implies b[i] == a[i] by {
            assert(longer@.drop_last()[i] == longer@[i] && files@.drop_last()[i] == files@[i]);
            assert(b[i] == longer@[i]@ && a[i] == files@[i]@);
        }
    }
    assert(a.last() == files@.last()@ && b.last() == longer@.last()@);
    let state = fnv_bytes(files_digest(a.drop_last()), a.last());
    assert(b.last().drop_last() =~= a.last());
    lemma_times_prime(state ^ 0xff);
    lemma_times_prime(state ^ (byte as u64));
    lemma_times_prime(fnv_byte(state, byte) ^ 0xff);
    state
}

/// Where the digits of a padded number stand.
proof fn lemma_hex_at(n: nat, width: nat, i: int)
    requires
        0 <= i < width,
    ensures
        hex_padded(n, width).len() == width,
        hex_padded(n, width)[width - 1 - i] == hex_digit(
            ((n as int / vstd::arithmetic::power::pow(16, i as nat)) % 16) as nat,
        ),
    decreases width,
{
    reveal(vstd::arithmetic::power::pow);
    hex_width(n, width);
    let w = (width - 1) as nat;
    hex_width(n / 16, w);
    if i > 0 {
        lemma_hex_at(n / 16, w, i - 1);
        let p = vstd::arithmetic::power::pow(16, (i - 1) as nat);
        vstd::arithmetic::power::lemma_pow_positive(16, (i - 1) as nat);
        assert(vstd::arithmetic::power::pow(16, i as nat) == 16 * p);
        vstd::arithmetic::div_mod::lemma_div_denominator(n as int, 16, p);
        assert(hex_padded(n, width)[width - 1 - i] == hex_padded(n / 16, w)[w - 1 - (i - 1)]);
    } else {
        assert(vstd::arithmetic::power::pow(16, 0) == 1);
    }
}

/// The identity of a compiler is the revision, a stroke, sixteen hexadecimal digits of the digest with
/// the most significant first, and the marker.
pub proof fn version_spells_the_digest(git_sha: &str, digest: u64, version: String, i: int)
    requires
        call_ensures(zluda_version, (git_sha, digest), version),
        0 <= i < 16,
    ensures
        ({
            let n = git_sha@.len() as int;
            let digit = (digest as int / vstd::arithmetic::power::pow(16, (15 - i) as nat)) % 16;
            let c = version@[n + 1 + i] as int;
            &&& version@.take(n) == git_sha@
            &&& version@[n] == '/'
            &&& digit < 10 ==> c == '0' as int + digit
            &&& digit >= 10 ==> c == 'a' as int + digit - 10
            &&& version@.skip(n + 17) == "/fp8-inline-r1"@
        }),
{
    let n = git_sha@.len() as int;
    lemma_hex_at(digest as nat, 16, 15 - i);
    reveal_strlit("/");
    let hex = hex_padded(digest as nat, 16);
    assert(version@.take(n) =~= git_sha@);
    assert(version@[n + 1 + i] == hex[i]);
    assert(version@.skip(n + 17) =~= "/fp8-inline-r1"@);
}

/// A library that was fetched starts with `MZ`.
pub proof fn fetched_library_starts_with_mz(magic: [u8; 2], fetched: bool)
    requires
        call_ensures(check_lfs_file, (magic,), fetched),
    ensures
        fetched <==> magic@[0] == 'M' as int && magic@[1] == 'Z' as int,
{
}

/// A piece is added to the file that is being read, and closing it adds the file to the others.
pub proof fn piece_is_added_to_the_file(digest: &mut PtxImplDigest, piece: &[u8])
    requires
        call_ensures(PtxImplDigest::update, (digest, piece), ()),
    ensures
        final(digest).files() == old(digest).files(),
        final(digest).open_file() == old(digest).open_file() + piece@,
{
}

/// Closing the file adds it to the others, and the next one starts empty.
pub proof fn closed_file_is_added(digest: &mut PtxImplDigest)
    requires
        call_ensures(PtxImplDigest::end_file, (digest,), ()),
    ensures
        final(digest).files().len() == old(digest).files().len() + 1,
        final(digest).files().last() == old(digest).open_file(),
        final(digest).files().drop_last() == old(digest).files(),
        final(digest).open_file().len() == 0,
{
    assert(final(digest).files().drop_last() =~= old(digest).files());
}

/// The digest of files that were read in pieces is that of the same files read at once.
pub proof fn reading_in_pieces_gives_the_same(
    digest: &PtxImplDigest,
    files: &Vec<Vec<u8>>,
    in_pieces: u64,
    at_once: u64,
)
    requires
        call_ensures(PtxImplDigest::value, (digest,), in_pieces),
        call_ensures(ptx_impl_digest, (files,), at_once),
        digest.files().len() == files@.len(),
        forall|i: int| 0 <= i < files@.len() ==> #[trigger] digest.files()[i] == files@[i]@,
    ensures
        in_pieces == at_once,
{
    let contents = files@.map_values(|f: Vec<u8>| f@);
    assert(contents =~= digest.files());
}

} // verus!
