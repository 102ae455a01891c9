//! Text primitives shared by classification and ordering: byte-wise
//! comparison of strings, case folding, and the dots in a file name.

use vstd::prelude::*;
use vstd::string::*;
use vstd::utf8::*;

verus! {

/// Length of the longest common prefix of `a` and `b`: the first position at
/// which they differ, or the length of the shorter one.
pub open spec fn mismatch(a: Seq<u8>, b: Seq<u8>) -> nat
    decreases a.len(),
{
    if a.len() == 0 || b.len() == 0 || a[0] != b[0] {
        0
    } else {
        1 + mismatch(a.drop_first(), b.drop_first())
    }
}

/// Strict lexicographic order on byte strings: at the first difference `a`
/// has ended or holds the smaller byte.
pub open spec fn bytes_lt(a: Seq<u8>, b: Seq<u8>) -> bool {
    let k = mismatch(a, b) as int;
    k < b.len() && (k == a.len() || a[k] < b[k])
}

/// `mismatch` is the one position up to which the two agree and at which
/// they part.
pub proof fn lemma_mismatch(a: Seq<u8>, b: Seq<u8>)
    ensures
        mismatch(a, b) <= a.len(),
        mismatch(a, b) <= b.len(),
        forall|j: int| 0 <= j < mismatch(a, b) ==> a[j] == b[j],
        mismatch(a, b) < a.len() && mismatch(a, b) < b.len() ==> a[mismatch(a, b) as int]
            != b[mismatch(a, b) as int],
    decreases a.len(),
{
    if a.len() == 0 || b.len() == 0 || a[0] != b[0] {
    } else {
        let ta = a.drop_first();
        let tb = b.drop_first();
        lemma_mismatch(ta, tb);
        assert forall|j: int| 0 <= j < mismatch(a, b) implies a[j] == b[j] by {
            if j > 0 {
                assert(a[j] == ta[j - 1]);
                assert(b[j] == tb[j - 1]);
            }
        }
    }
}

/// A position up to which the two agree, and at which they part or one
/// ends, is `mismatch`.
pub proof fn lemma_mismatch_unique(a: Seq<u8>, b: Seq<u8>, k: int)
    requires
        0 <= k <= a.len(),
        k <= b.len(),
        forall|j: int| 0 <= j < k ==> a[j] == b[j],
        k < a.len() && k < b.len() ==> a[k] != b[k],
    ensures
        mismatch(a, b) == k,
{
    lemma_mismatch(a, b);
}

/// Equal byte strings are those that agree to the end of both.
pub proof fn lemma_mismatch_equal(a: Seq<u8>, b: Seq<u8>)
    ensures
        (mismatch(a, b) == a.len() && mismatch(a, b) == b.len()) <==> a == b,
{
    lemma_mismatch(a, b);
    if mismatch(a, b) == a.len() && mismatch(a, b) == b.len() {
        assert(a =~= b);
    }
}

/// The common prefix of two byte strings does not depend on their order.
pub proof fn lemma_mismatch_symmetric(a: Seq<u8>, b: Seq<u8>)
    ensures
        mismatch(a, b) == mismatch(b, a),
{
    lemma_mismatch(a, b);
    lemma_mismatch_unique(b, a, mismatch(a, b) as int);
}

/// Returns the length of the longest common prefix of `a` and `b`.
pub fn common_prefix_len(a: &[u8], b: &[u8]) -> (k: usize)
    ensures
        k == mismatch(a@, b@),
{
    let mut i: usize = 0;
    while i < a.len() && i < b.len() && a[i] == b[i]
        invariant
            i <= a@.len(),
            i <= b@.len(),
            forall|j: int| 0 <= j < i ==> a@[j] == b@[j],
        decreases a@.len() - i,
    {
        i += 1;
    }
    proof {
        lemma_mismatch_unique(a@, b@, i as int);
    }
    i
}

/// No byte string comes before itself.
pub proof fn lemma_bytes_lt_irreflexive(a: Seq<u8>)
    ensures
        !bytes_lt(a, a),
{
}

/// Of two byte strings at most one comes before the other.
pub proof fn lemma_bytes_lt_asymmetric(a: Seq<u8>, b: Seq<u8>)
    requires
        bytes_lt(a, b),
    ensures
        !bytes_lt(b, a),
{
    lemma_mismatch(a, b);
    lemma_mismatch_unique(b, a, mismatch(a, b) as int);
}

/// Two byte strings neither of which comes before the other are equal.
pub proof fn lemma_bytes_lt_total(a: Seq<u8>, b: Seq<u8>)
    ensures
        a == b || bytes_lt(a, b) || bytes_lt(b, a),
{
    lemma_mismatch(a, b);
    lemma_mismatch_unique(b, a, mismatch(a, b) as int);
}

/// Lexicographic byte order is transitive.
pub proof fn lemma_bytes_lt_transitive(a: Seq<u8>, b: Seq<u8>, c: Seq<u8>)
    requires
        bytes_lt(a, b),
        bytes_lt(b, c),
    ensures
        bytes_lt(a, c),
{
    lemma_mismatch(a, b);
    lemma_mismatch(b, c);
    let k1 = mismatch(a, b) as int;
    let k2 = mismatch(b, c) as int;
    lemma_mismatch_unique(a, c, if k1 <= k2 { k1 } else { k2 });
}

/// "Not behind" is transitive too: if `b` does not come before `a` and `c`
/// does not come before `b`, then `c` does not come before `a`.
pub proof fn lemma_bytes_not_behind_transitive(a: Seq<u8>, b: Seq<u8>, c: Seq<u8>)
    requires
        !bytes_lt(b, a),
        !bytes_lt(c, b),
    ensures
        !bytes_lt(c, a),
{
    lemma_bytes_lt_total(a, b);
    if bytes_lt(c, a) && a != b && b != c {
        lemma_bytes_lt_transitive(c, a, b);
    }
}

/// Distinct texts have distinct UTF-8 encodings.
pub proof fn lemma_utf8_injective(a: Seq<char>, b: Seq<char>)
    requires
        encode_utf8(a) == encode_utf8(b),
    ensures
        a == b,
{
    encode_utf8_decode_utf8(a);
    encode_utf8_decode_utf8(b);
}

/// Tells whether two strings hold the same text.
pub fn str_eq(a: &str, b: &str) -> (r: bool)
    ensures
        r == (a@ == b@),
{
    let ab = a.as_bytes();
    let bb = b.as_bytes();
    let k = common_prefix_len(ab, bb);
    proof {
        lemma_mismatch_equal(ab@, bb@);
        if ab@ == bb@ {
            lemma_utf8_injective(a@, b@);
        }
    }
    k == ab.len() && k == bb.len()
}

/// The lower-case form of a text, as the standard library's Unicode case
/// mapping produces it.
pub uninterp spec fn lowercase(s: Seq<char>) -> Seq<char>;

/// Lower-cases `s` with `str::to_lowercase`. The mapping follows the Unicode
/// tables compiled into the standard library and is a function of the text
/// alone; the contract names its result and claims nothing else.
#[verifier::external_body]
pub(crate) fn to_lowercase(s: &str) -> (r: String)
    ensures
        r@ == lowercase(s@),
{
    s.to_lowercase()
}

/// The bytes by which a text is ordered when case is ignored: the UTF-8
/// encoding of its lower-case form.
pub open spec fn folded(s: Seq<char>) -> Seq<u8> {
    encode_utf8(lowercase(s))
}

/// Two texts fold to the same bytes exactly when their lower-case forms are
/// the same text.
pub proof fn lemma_folded_equal(a: Seq<char>, b: Seq<char>)
    ensures
        (folded(a) == folded(b)) <==> (lowercase(a) == lowercase(b)),
{
    if folded(a) == folded(b) {
        lemma_utf8_injective(lowercase(a), lowercase(b));
    }
}

/// A name is hidden when it starts with a dot.
pub open spec fn is_dot_name(name: Seq<char>) -> bool {
    name.len() > 0 && name[0] == '.'
}

/// Tells whether `name` starts with a dot.
pub fn starts_with_dot(name: &str) -> (r: bool)
    ensures
        r == is_dot_name(name@),
{
    !name.is_empty() && name.get_char(0) == '.'
}

/// Index of the last dot in `name`, or -1 when it holds none.
pub open spec fn last_dot(name: Seq<char>) -> int
    decreases name.len(),
{
    if name.len() == 0 {
        -1
    } else if name.last() == '.' {
        name.len() - 1
    } else {
        last_dot(name.drop_last())
    }
}

/// The extension of a file name: what follows its last dot. A name without
/// a dot, one whose only dot leads it, and the parent-directory name `..`
/// have none; a name that ends in a dot has the empty extension.
pub open spec fn extension_of(name: Seq<char>) -> Option<Seq<char>> {
    let dot = last_dot(name);
    if dot <= 0 || name == seq!['.', '.'] {
        None
    } else {
        Some(name.subrange(dot + 1, name.len() as int))
    }
}

/// The folded extension of a file name, if it has an extension.
pub open spec fn folded_extension(name: Seq<char>) -> Option<Seq<u8>> {
    match extension_of(name) {
        Some(ext) => Some(folded(ext)),
        None => None,
    }
}

/// `last_dot` is a dot after which no dot follows.
pub proof fn lemma_last_dot(name: Seq<char>)
    ensures
        -1 <= last_dot(name) < name.len(),
        last_dot(name) >= 0 ==> name[last_dot(name)] == '.',
        forall|j: int| last_dot(name) < j < name.len() ==> name[j] != '.',
    decreases name.len(),
{
    if name.len() > 0 && name.last() != '.' {
        let front = name.drop_last();
        lemma_last_dot(front);
        assert forall|j: int| last_dot(name) < j < name.len() implies name[j] != '.' by {
            if j < front.len() {
                assert(name[j] == front[j]);
            }
        }
    }
}

/// A position that holds a dot, or -1, after which no dot follows is
/// `last_dot`.
pub proof fn lemma_last_dot_unique(name: Seq<char>, dot: int)
    requires
        -1 <= dot < name.len(),
        dot >= 0 ==> name[dot] == '.',
        forall|j: int| dot < j < name.len() ==> name[j] != '.',
    ensures
        last_dot(name) == dot,
{
    lemma_last_dot(name);
}

/// Returns the extension of the file name `name`, borrowed from it.
pub fn file_extension(name: &str) -> (ext: Option<&str>)
    ensures
        ext is Some == extension_of(name@) is Some,
        ext matches Some(e) ==> e@ == extension_of(name@).unwrap(),
{
    let n = name.unicode_len();
    let mut i: usize = n;
    while i > 0 && name.get_char(i - 1) != '.'
        invariant
            i <= n,
            n == name@.len(),
            forall|j: int| i <= j < n ==> name@[j] != '.',
        decreases i,
    {
        i -= 1;
    }
    proof {
        lemma_last_dot_unique(name@, i - 1);
    }
    if i <= 1 {
        return None;
    }
    if n == 2 && name.get_char(0) == '.' {
        assert(name@ =~= seq!['.', '.']);
        return None;
    }
    Some(name.substring_char(i, n))
}

} // verus!
