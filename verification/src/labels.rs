//! Labels for assertion types.
//!
//! A label is a dotted reverse-domain string naming an assertion's semantic
//! type, optionally suffixed with `.v<N>` for schema versions two and above
//! (version one is implicit and carries no suffix). These constants do not
//! include version suffixes.

use vstd::prelude::*;
use crate::strutil::{
    str_chars, chars_to_string, chars_eq_str, push_dec, spec_is_digit, spec_all_digits,
    spec_digits_val, spec_dec, lemma_dec_digits, lemma_dec_val,
};

verus! {

/// Label prefix for a claim assertion.
pub const CLAIM: &'static str = "c2pa.claim";

/// Label prefix for an assertion metadata assertion.
pub const ASSERTION_METADATA: &'static str = "c2pa.assertion.metadata";

/// Label prefix for a data hash assertion.
pub const DATA_HASH: &'static str = "c2pa.hash.data";

/// Label prefix for a box hash assertion.
pub const BOX_HASH: &'static str = "c2pa.hash.boxes";

/// Label prefix for a BMFF-based hash assertion.
pub const BMFF_HASH: &'static str = "c2pa.hash.bmff";

/// Label prefix for a collection hash assertion.
pub const COLLECTION_HASH: &'static str = "c2pa.hash.collection.data";

/// Label prefix for a soft binding assertion.
pub const SOFT_BINDING: &'static str = "c2pa.soft-binding";

/// Label prefix for a cloud data assertion.
pub const CLOUD_DATA: &'static str = "c2pa.cloud-data";

/// Label prefix for a thumbnail assertion.
pub const THUMBNAIL: &'static str = "c2pa.thumbnail";

/// Label prefix for a claim thumbnail assertion.
pub const CLAIM_THUMBNAIL: &'static str = "c2pa.thumbnail.claim";

/// Label prefix for an ingredient thumbnail assertion.
pub const INGREDIENT_THUMBNAIL: &'static str = "c2pa.thumbnail.ingredient";

/// Label prefix for a JPEG claim thumbnail assertion.
pub const JPEG_CLAIM_THUMBNAIL: &'static str = "c2pa.thumbnail.claim.jpeg";

/// Label prefix for a JPEG ingredient thumbnail assertion.
pub const JPEG_INGREDIENT_THUMBNAIL: &'static str = "c2pa.thumbnail.ingredient.jpeg";

/// Label prefix for a PNG claim thumbnail assertion.
pub const PNG_CLAIM_THUMBNAIL: &'static str = "c2pa.thumbnail.claim.png";

/// Label prefix for a PNG ingredient thumbnail assertion.
pub const PNG_INGREDIENT_THUMBNAIL: &'static str = "c2pa.thumbnail.ingredient.png";

/// Label prefix for a SVG claim thumbnail assertion.
pub const SVG_CLAIM_THUMBNAIL: &'static str = "c2pa.thumbnail.claim.svg";

/// Label prefix for a SVG ingredient thumbnail assertion.
pub const SVG_INGREDIENT_THUMBNAIL: &'static str = "c2pa.thumbnail.ingredient.svg";

/// Label prefix for an actions assertion.
pub const ACTIONS: &'static str = "c2pa.actions";

/// Label prefix for an ingredient assertion.
pub const INGREDIENT: &'static str = "c2pa.ingredient";

/// Label prefix for a depthmap assertion.
pub const DEPTHMAP: &'static str = "c2pa.depthmap";

/// Label prefix for an asset type assertion.
pub const ASSET_TYPE: &'static str = "c2pa.asset-type";

/// Label prefix for an embedded data assertion.
pub const EMBEDDED_DATA: &'static str = "c2pa.embedded-data";

/// Label prefix for an icon assertion.
pub const ICON: &'static str = "c2pa.icon";

/// Label prefix for a GDepth depthmap assertion.
pub const DEPTHMAP_GDEPTH: &'static str = "c2pa.depthmap.GDepth";

/// Label prefix for an EXIF information assertion.
pub const EXIF: &'static str = "stds.exif";

/// Label prefix for an IPTC photo metadata assertion.
pub const IPTC_PHOTO_METADATA: &'static str = "stds.iptc.photo-metadata";

/// Label prefix for any assertion based on a schema.org grammar.
pub const SCHEMA_ORG: &'static str = "schema.org";

/// Label prefix for a claim review assertion.
pub const CLAIM_REVIEW: &'static str = "stds.schema-org.ClaimReview";

/// Label prefix for a creative work assertion.
pub const CREATIVE_WORK: &'static str = "stds.schema-org.CreativeWork";

/// Label prefix for a timestamp assertion.
pub const TIMESTAMP: &'static str = "c2pa.time-stamp";

/// Label for the assertion store.
pub const ASSERTION_STORE: &'static str = "c2pa.assertions";

/// Label for the databox store.
pub const DATABOX_STORE: &'static str = "c2pa.databoxes";

/// Label prefix for an asset reference assertion.
pub const ASSET_REFERENCE: &'static str = "c2pa.asset-ref";

/// Index of the last `'.'` in `s`, or `-1` if there is none.
pub open spec fn spec_last_dot(s: Seq<char>) -> int
    decreases s.len(),
{
    if s.len() == 0 {
        -1
    } else if s.last() == '.' {
        s.len() - 1
    } else {
        spec_last_dot(s.drop_last())
    }
}

/// The part of `s` after its last `'.'` (all of `s` if there is no dot).
pub open spec fn spec_last_component(s: Seq<char>) -> Seq<char> {
    s.subrange(spec_last_dot(s) + 1, s.len() as int)
}

/// Whether a label component is a version suffix: a lowercase `'v'`
/// followed by one or more decimal digits whose value fits in `usize`.
pub open spec fn spec_is_version_suffix(c: Seq<char>) -> bool {
    &&& c.len() >= 2
    &&& c[0] == 'v'
    &&& spec_all_digits(c.subrange(1, c.len() as int))
    &&& spec_digits_val(c.subrange(1, c.len() as int)) <= usize::MAX as nat
}

/// The version carried by a label's suffix, if any.
pub open spec fn spec_version(s: Seq<char>) -> Option<usize> {
    let c = spec_last_component(s);
    if spec_is_version_suffix(c) {
        Some(spec_digits_val(c.subrange(1, c.len() as int)) as usize)
    } else {
        None
    }
}

/// The label with the given version applied: unchanged for version one,
/// else suffixed with `.v<N>`.
pub open spec fn spec_set_version(l: Seq<char>, version: usize) -> Seq<char> {
    if version == 1 {
        l
    } else {
        l + seq!['.', 'v'] + spec_dec(version as nat)
    }
}

proof fn lemma_last_dot_bounds(s: Seq<char>)
    ensures
        -1 <= spec_last_dot(s) < s.len(),
    decreases s.len(),
{
    if s.len() != 0 && s.last() != '.' {
        lemma_last_dot_bounds(s.drop_last());
    }
}

/// Appending dot-free characters does not move the last dot.
proof fn lemma_last_dot_append_nodot(s: Seq<char>, t: Seq<char>)
    requires
        forall|i: int| 0 <= i < t.len() ==> t[i] != '.',
    ensures
        spec_last_dot(s + t) == spec_last_dot(s),
    decreases t.len(),
{
    if t.len() == 0 {
        assert(s + t =~= s);
    } else {
        assert((s + t).last() == t.last());
        assert((s + t).drop_last() =~= s + t.drop_last());
        lemma_last_dot_append_nodot(s, t.drop_last());
    }
}

/// Return the version suffix from an assertion label if it exists.
///
/// When an assertion's schema is changed in a backwards-compatible manner,
/// the label consists of the base followed by an incremented version
/// number, for example moving from `c2pa.ingredient` to
/// `c2pa.ingredient.v2`. If such a suffix exists (`.v` followed by
/// decimal digits), return its value; otherwise return `None`. An
/// uppercase `V`, a non-digit after the `v`, or a value too large for
/// `usize` is not a version.
pub fn version(label: &str) -> (r: Option<usize>)
    ensures
        r == spec_version(label@),
{
    let chars = str_chars(label);
    let n = chars.len();
    // find the index just past the last '.'
    let mut start: usize = 0;
    let mut i: usize = 0;
    while i < n
        invariant
            n == chars@.len(),
            i <= n,
            start == spec_last_dot(chars@.take(i as int)) + 1,
        decreases n - i,
    {
        proof {
            assert(chars@.take(i + 1).last() == chars@[i as int]);
            assert(chars@.take(i + 1).drop_last() =~= chars@.take(i as int));
        }
        if chars[i] == '.' {
            start = i + 1;
        }
        i = i + 1;
    }
    proof {
        assert(chars@.take(n as int) =~= chars@);
        lemma_last_dot_bounds(chars@);
    }
    let ghost comp = spec_last_component(label@);
    proof {
        assert(comp =~= chars@.subrange(start as int, n as int));
    }
    // the component must be 'v' followed by at least one digit
    if n - start < 2 {
        return None;
    }
    if chars[start] != 'v' {
        return None;
    }
    let ghost digits = comp.subrange(1, comp.len() as int);
    let mut val: usize = 0;
    let mut j: usize = start + 1;
    while j < n
        invariant
            n == chars@.len(),
            chars@ == label@,
            start + 1 <= j <= n,
            start + 2 <= n,
            comp == spec_last_component(label@),
            comp =~= chars@.subrange(start as int, n as int),
            digits == comp.subrange(1, comp.len() as int),
            spec_all_digits(digits.take(j - start - 1)),
            val == spec_digits_val(digits.take(j - start - 1)),
        decreases n - j,
    {
        let c = chars[j];
        proof {
            assert(digits[j - start - 1] == chars@[j as int]);
            assert(digits.take(j - start) =~= digits.take(j - start - 1).push(c));
            assert(digits.take(j - start).drop_last() =~= digits.take(j - start - 1));
        }
        if !('0' <= c && c <= '9') {
            proof {
                assert(!spec_is_digit(digits[j - start - 1]));
            }
            return None;
        }
        let d = (c as usize) - ('0' as usize);
        if val > (usize::MAX - d) / 10 {
            // the digits overflow usize, so this is not a version suffix
            proof {
                assert(val * 10 + d > usize::MAX) by (nonlinear_arith)
                    requires
                        val > (usize::MAX - d) / 10,
                        d <= 9,
                ;
                lemma_digits_val_prefix_le(digits, (j - start) as int);
                assert(spec_digits_val(digits) > usize::MAX as nat);
            }
            return None;
        }
        val = val * 10 + d;
        j = j + 1;
    }
    proof {
        assert(digits.take(n - start - 1) =~= digits);
    }
    Some(val)
}

/// The value of a digit string is at least the value of any prefix.
proof fn lemma_digits_val_prefix_le(s: Seq<char>, k: int)
    requires
        0 <= k <= s.len(),
    ensures
        spec_digits_val(s.take(k)) <= spec_digits_val(s),
    decreases s.len() - k,
{
    if k < s.len() {
        assert(s.take(k + 1).drop_last() =~= s.take(k));
        assert(spec_digits_val(s.take(k)) * 10 >= spec_digits_val(s.take(k))) by (nonlinear_arith);
        lemma_digits_val_prefix_le(s, k + 1);
    } else {
        assert(s.take(k) =~= s);
    }
}

/// Set the version of a label.
///
/// If the version is 1, the original label is returned, since version one
/// is implicit and unsuffixed. Otherwise the label is suffixed with the
/// version number. This expects the label to not already have a version
/// suffix.
pub fn set_version(base_label: &str, version: usize) -> (r: String)
    ensures
        r@ == spec_set_version(base_label@, version),
{
    if version == 1 {
        let chars = str_chars(base_label);
        chars_to_string(&chars)
    } else {
        let mut chars = str_chars(base_label);
        chars.push('.');
        chars.push('v');
        push_dec(&mut chars, version);
        proof {
            assert(chars@ =~= base_label@ + seq!['.', 'v'] + spec_dec(version as nat));
        }
        chars_to_string(&chars)
    }
}

/// A label without a version suffix has no version, and applying version
/// one leaves it unchanged.
pub proof fn lemma_unsuffixed_version(l: Seq<char>)
    requires
        !spec_is_version_suffix(spec_last_component(l)),
    ensures
        spec_version(l) is None,
        spec_set_version(l, 1) == l,
{
}

/// Applying a version of two or more always yields a label whose version
/// parses back to exactly that number.
pub proof fn lemma_version_of_set_version(l: Seq<char>, n: usize)
    requires
        n >= 2,
    ensures
        spec_version(spec_set_version(l, n)) == Some(n),
{
    let d = spec_dec(n as nat);
    let full = l + seq!['.', 'v'] + d;
    lemma_dec_digits(n as nat);
    lemma_dec_val(n as nat);
    let tail = seq!['v'] + d;
    assert(forall|i: int| 0 <= i < tail.len() ==> #[trigger] tail[i] != '.') by {
        assert(forall|i: int| 1 <= i < tail.len() ==> tail[i] == d[i - 1]);
        assert(forall|i: int| 0 <= i < d.len() ==> spec_is_digit(#[trigger] d[i]));
    }
    assert(full =~= (l + seq!['.']) + tail);
    lemma_last_dot_append_nodot(l + seq!['.'], tail);
    assert(spec_last_dot(l + seq!['.']) == l.len());
    assert(spec_last_dot(full) == l.len());
    let comp = spec_last_component(full);
    assert(comp =~= tail);
    assert(comp.subrange(1, comp.len() as int) =~= d);
    assert(spec_digits_val(d) == n as nat);
    assert(spec_is_version_suffix(comp));
}

/// First index of `'/'` in `s`, or `-1` if there is none.
pub open spec fn spec_first_slash(s: Seq<char>) -> int
    decreases s.len(),
{
    if s.len() == 0 {
        -1
    } else if s[0] == '/' {
        0
    } else if spec_first_slash(s.drop_first()) == -1 {
        -1
    } else {
        1 + spec_first_slash(s.drop_first())
    }
}

/// Whether `f` names an image media type with exactly one slash,
/// `image/<subtype>`.
pub open spec fn spec_is_image_pair(f: Seq<char>) -> bool {
    let k = spec_first_slash(f);
    &&& k >= 0
    &&& f.take(k) == "image"@
    &&& spec_first_slash(f.skip(k + 1)) == -1
}

/// The thumbnail label derived from a label prefix and a media type or
/// file extension.
pub open spec fn spec_add_thumbnail_format(l: Seq<char>, f: Seq<char>) -> Seq<char> {
    if f == "image/jpeg"@ || f == "jpeg"@ || f == "jpg"@ {
        l + ".jpeg"@
    } else if f == "image/png"@ || f == "png"@ {
        l + ".png"@
    } else if f == "image/svg+xml"@ || f == "svg"@ {
        l + ".svg"@
    } else if spec_is_image_pair(f) {
        l + "/"@ + f.skip(spec_first_slash(f) + 1)
    } else {
        l + "/"@ + f
    }
}

fn find_first_slash(chars: &Vec<char>, from: usize) -> (r: Option<usize>)
    requires
        from <= chars@.len(),
    ensures
        match r {
            Some(k) => from <= k < chars@.len() && spec_first_slash(chars@.skip(from as int)) == k
                - from,
            None => spec_first_slash(chars@.skip(from as int)) == -1,
        },
{
    let n = chars.len();
    let mut i: usize = from;
    while i < n
        invariant
            from <= i <= n,
            n == chars@.len(),
            spec_first_slash_partial(chars@, from as int, i as int),
        decreases n - i,
    {
        if chars[i] == '/' {
            proof {
                lemma_first_slash_found(chars@, from as int, i as int);
            }
            return Some(i);
        }
        i = i + 1;
    }
    proof {
        lemma_first_slash_none(chars@, from as int, n as int);
    }
    None
}

/// No slash occurs in `s` at positions `from..upto`.
spec fn spec_first_slash_partial(s: Seq<char>, from: int, upto: int) -> bool {
    forall|j: int| from <= j < upto ==> s[j] != '/'
}

proof fn lemma_first_slash_found(s: Seq<char>, from: int, k: int)
    requires
        0 <= from <= k < s.len(),
        spec_first_slash_partial(s, from, k),
        s[k] == '/',
    ensures
        spec_first_slash(s.skip(from)) == k - from,
    decreases k - from,
{
    let t = s.skip(from);
    if k == from {
        assert(t[0] == '/');
    } else {
        assert(t[0] != '/');
        assert(t.drop_first() =~= s.skip(from + 1));
        lemma_first_slash_found(s, from + 1, k);
    }
}

proof fn lemma_first_slash_none(s: Seq<char>, from: int, n: int)
    requires
        0 <= from <= n == s.len(),
        spec_first_slash_partial(s, from, n),
    ensures
        spec_first_slash(s.skip(from)) == -1,
    decreases n - from,
{
    let t = s.skip(from);
    if from < n {
        assert(t[0] != '/');
        assert(t.drop_first() =~= s.skip(from + 1));
        lemma_first_slash_none(s, from + 1, n);
    }
}

/// Given a thumbnail label prefix such as `CLAIM_THUMBNAIL` and a file
/// format (such as `png`), create a suitable label for an assertion.
///
/// Known image formats map to a dotted suffix; any other `image/<subtype>`
/// media type maps to `<label>/<subtype>`; anything else maps to
/// `<label>/<format>`.
pub fn add_thumbnail_format(label: &str, format: &str) -> (r: String)
    ensures
        r@ == spec_add_thumbnail_format(label@, format@),
{
    let f = str_chars(format);
    let mut out = str_chars(label);
    if chars_eq_str(&f, "image/jpeg") || chars_eq_str(&f, "jpeg") || chars_eq_str(&f, "jpg") {
        out.push('.');
        out.push('j');
        out.push('p');
        out.push('e');
        out.push('g');
        proof {
            reveal_strlit(".jpeg");
            assert(out@ =~= label@ + ".jpeg"@);
        }
    } else if chars_eq_str(&f, "image/png") || chars_eq_str(&f, "png") {
        out.push('.');
        out.push('p');
        out.push('n');
        out.push('g');
        proof {
            reveal_strlit(".png");
            assert(out@ =~= label@ + ".png"@);
        }
    } else if chars_eq_str(&f, "image/svg+xml") || chars_eq_str(&f, "svg") {
        out.push('.');
        out.push('s');
        out.push('v');
        out.push('g');
        proof {
            reveal_strlit(".svg");
            assert(out@ =~= label@ + ".svg"@);
        }
    } else {
        let flen = f.len();
        let mut slash: usize = 0;
        let mut is_image_pair = false;
        proof {
            assert(f@.skip(0) =~= f@);
        }
        match find_first_slash(&f, 0) {
            Some(k) => {
                slash = k;
                let mut pre: Vec<char> = Vec::new();
                let mut i: usize = 0;
                while i < k
                    invariant
                        i <= k,
                        k < f@.len(),
                        pre@ == f@.take(i as int),
                    decreases k - i,
                {
                    pre.push(f[i]);
                    i = i + 1;
                    proof {
                        assert(pre@ =~= f@.take(i as int));
                    }
                }
                if chars_eq_str(&pre, "image") {
                    match find_first_slash(&f, k + 1) {
                        Some(_) => {},
                        None => {
                            is_image_pair = true;
                        },
                    }
                }
            },
            None => {},
        }
        proof {
            assert(is_image_pair == spec_is_image_pair(f@));
        }
        out.push('/');
        if is_image_pair {
            // copy the subtype after the first slash
            let mut i: usize = slash + 1;
            let ghost base = out@;
            while i < flen
                invariant
                    flen == f@.len(),
                    slash + 1 <= i <= flen,
                    out@ == base + f@.subrange(slash + 1, i as int),
                decreases flen - i,
            {
                out.push(f[i]);
                i = i + 1;
                proof {
                    assert(out@ =~= base + f@.subrange(slash + 1, i as int));
                }
            }
            proof {
                reveal_strlit("/");
                assert(out@ =~= label@ + "/"@ + f@.skip(spec_first_slash(f@) + 1));
            }
        } else {
            let mut i: usize = 0;
            let ghost base = out@;
            while i < flen
                invariant
                    flen == f@.len(),
                    i <= flen,
                    out@ == base + f@.take(i as int),
                decreases flen - i,
            {
                out.push(f[i]);
                i = i + 1;
                proof {
                    assert(out@ =~= base + f@.take(i as int));
                }
            }
            proof {
                reveal_strlit("/");
                assert(out@ =~= label@ + "/"@ + f@);
            }
        }
    }
    chars_to_string(&out)
}

} // verus!
