//! The home screen's feature search: a free-text query is scored against the
//! keywords of each feature and resolved to the best-matching screen.

use vstd::prelude::*;
use vstd::utf8::encode_utf8;
use crate::route::Route;
use crate::text::{
    chars_of, contains_chars, contains_sub, chars_eq, split_words, string_from_chars, trim,
    trim_str, words, lemma_words_len,
};
use crate::codec::{utf8_len, lemma_encode_utf8_len};

verus! {

/// The lowercase form `str::to_lowercase` gives `s`.
pub uninterp spec fn lowercase_of(s: Seq<char>) -> Seq<char>;

/// The ASCII lowercase of a character: `A` to `Z` become `a` to `z`, every
/// other character stays.
pub open spec fn ascii_lower(c: char) -> char {
    if 'A' <= c <= 'Z' {
        ((c as u32) + 32) as char
    } else {
        c
    }
}

/// Whether every character of `s` is ASCII.
pub open spec fn all_ascii(s: Seq<char>) -> bool {
    forall|i: int| 0 <= i < s.len() ==> (#[trigger] s[i] as u32) < 128
}

/// `str::to_lowercase`: the Unicode lowercase mapping (Derived Core Property
/// `Lowercase`), which on ASCII text maps `A`-`Z` to `a`-`z`, one for one,
/// and leaves the other characters as they are. Beyond ASCII the mapping
/// (which may change the length) is only named.
#[verifier::external_body]
pub(crate) fn to_lowercase(s: &str) -> (r: String)
    ensures
        r@ == lowercase_of(s@),
        all_ascii(s@) ==> r@ == s@.map_values(|c: char| ascii_lower(c)),
{
    s.to_lowercase()
}

/// The keywords that steer the search to one screen.
pub struct FeatureKeywords {
    pub route: Route,
    /// Whole-token keywords (3 points each).
    pub exact: Vec<&'static str>,
    /// Keywords that only count as partial matches.
    pub partial: Vec<&'static str>,
}

/// The abstract value of [`FeatureKeywords`].
#[verifier::ext_equal]
pub struct FeatureSpec {
    pub route: Route,
    pub exact: Seq<Seq<char>>,
    pub partial: Seq<Seq<char>>,
}

/// The views of a list of string slices.
pub open spec fn str_views(v: Seq<&str>) -> Seq<Seq<char>> {
    v.map_values(|s: &str| s@)
}

impl View for FeatureKeywords {
    type V = FeatureSpec;

    open spec fn view(&self) -> FeatureSpec {
        FeatureSpec { route: self.route, exact: str_views(self.exact@), partial: str_views(self.partial@) }
    }
}

/// Words that never count as search tokens.
pub open spec fn stopwords_spec() -> Seq<Seq<char>> {
    seq!["to"@, "a"@, "the"@, "an"@, "of"@, "my"@, "need"@, "want"@, "how"@, "can"@, "do"@, "i"@]
}

/// Words that never count as search tokens.
pub fn stopwords() -> (r: Vec<&'static str>)
    ensures
        str_views(r@) == stopwords_spec(),
{
    let r = vec!["to", "a", "the", "an", "of", "my", "need", "want", "how", "can", "do", "i"];
    assert(str_views(r@) =~= stopwords_spec());
    r
}

/// The keywords of each searchable screen, in scoring order.
pub open spec fn features_spec() -> Seq<FeatureSpec> {
    seq![
        FeatureSpec {
            route: Route::Converter,
            exact: seq!["convert"@, "conversion"@, "base64"@, "binary"@, "transform"@, "format"@,
                "encode"@, "decode"@, "encoding"@, "decoding"@],
            partial: seq!["text"@, "string"@],
        },
        FeatureSpec {
            route: Route::KeyGenerator,
            exact: seq!["key"@, "keys"@, "generate"@, "generation"@, "password"@, "random"@,
                "secure"@, "cryptographic"@, "bit"@, "128"@, "256"@, "512"@],
            partial: seq!["security"@],
        },
        FeatureSpec {
            route: Route::Encrypter,
            exact: seq!["encrypt"@, "encryption"@, "aes"@, "des"@, "protect"@, "hide"@, "secret"@,
                "cbc"@, "ecb"@, "crypt"@],
            partial: seq!["secure"@, "security"@, "md5"@],
        },
        FeatureSpec {
            route: Route::Decrypter,
            exact: seq!["decrypt"@, "decryption"@, "decode"@, "aes"@, "des"@, "cbc"@, "ecb"@,
                "read"@, "open"@, "reveal"@],
            partial: seq!["ciphertext"@, "payload"@],
        },
        FeatureSpec {
            route: Route::FileHasher,
            exact: seq!["hash"@, "hashing"@, "file"@, "md5"@, "checksum"@, "fingerprint"@,
                "integrity"@, "verify"@, "document"@, "calculate"@, "digest"@],
            partial: seq!["check"@],
        },
    ]
}

/// The keywords of each searchable screen, in scoring order.
pub fn features() -> (r: Vec<FeatureKeywords>)
    ensures
        r@.len() == features_spec().len(),
        forall|i: int| 0 <= i < r@.len() ==> (#[trigger] r@[i])@ == features_spec()[i],
{
    let f0 = FeatureKeywords {
        route: Route::Converter,
        exact: vec!["convert", "conversion", "base64", "binary", "transform", "format", "encode",
            "decode", "encoding", "decoding"],
        partial: vec!["text", "string"],
    };
    let f1 = FeatureKeywords {
        route: Route::KeyGenerator,
        exact: vec!["key", "keys", "generate", "generation", "password", "random", "secure",
            "cryptographic", "bit", "128", "256", "512"],
        partial: vec!["security"],
    };
    let f2 = FeatureKeywords {
        route: Route::Encrypter,
        exact: vec!["encrypt", "encryption", "aes", "des", "protect", "hide", "secret", "cbc", "ecb",
            "crypt"],
        partial: vec!["secure", "security", "md5"],
    };
    let f3 = FeatureKeywords {
        route: Route::Decrypter,
        exact: vec!["decrypt", "decryption", "decode", "aes", "des", "cbc", "ecb", "read", "open",
            "reveal"],
        partial: vec!["ciphertext", "payload"],
    };
    let f4 = FeatureKeywords {
        route: Route::FileHasher,
        exact: vec!["hash", "hashing", "file", "md5", "checksum", "fingerprint", "integrity",
            "verify", "document", "calculate", "digest"],
        partial: vec!["check"],
    };
    assert(f0@ =~= features_spec()[0]);
    assert(f1@ =~= features_spec()[1]);
    assert(f2@ =~= features_spec()[2]);
    assert(f3@ =~= features_spec()[3]);
    assert(f4@ =~= features_spec()[4]);
    vec![f0, f1, f2, f3, f4]
}

/// Length in bytes of the UTF-8 encoding (what `str::len` measures).
pub open spec fn byte_len(s: Seq<char>) -> nat {
    encode_utf8(s).len()
}

/// Whether a word of the query counts as a token.
pub open spec fn is_token(w: Seq<char>) -> bool {
    byte_len(w) > 1 && !stopwords_spec().contains(w)
}

/// The query's tokens: its words longer than one byte that are not stopwords.
pub open spec fn tokens_of(ws: Seq<Seq<char>>) -> Seq<Seq<char>>
    decreases ws.len(),
{
    if ws.len() == 0 {
        seq![]
    } else if is_token(ws.last()) {
        tokens_of(ws.drop_last()).push(ws.last())
    } else {
        tokens_of(ws.drop_last())
    }
}

/// Whether `t` and some keyword of `ks` contain one another.
pub open spec fn overlaps_any(ks: Seq<Seq<char>>, t: Seq<char>) -> bool {
    exists|i: int| 0 <= i < ks.len() && (contains_sub(ks[i], t) || contains_sub(t, ks[i]))
}

/// Points one token earns for a feature: 3 for an exact keyword, otherwise
/// 1 when a token of at least 4 bytes overlaps an exact or partial keyword.
pub open spec fn token_score(f: FeatureSpec, t: Seq<char>) -> nat {
    if f.exact.contains(t) {
        3
    } else if byte_len(t) >= 4 && (overlaps_any(f.exact, t) || overlaps_any(f.partial, t)) {
        1
    } else {
        0
    }
}

/// A feature's score over all tokens.
pub open spec fn feature_score(f: FeatureSpec, toks: Seq<Seq<char>>) -> nat
    decreases toks.len(),
{
    if toks.len() == 0 {
        0
    } else {
        feature_score(f, toks.drop_last()) + token_score(f, toks.last())
    }
}

/// The best (score, route) among the first `n` features: a later feature
/// replaces the current best only with a strictly higher score.
pub open spec fn best_of(fs: Seq<FeatureSpec>, toks: Seq<Seq<char>>, n: nat) -> (nat, Option<Route>)
    decreases n,
{
    if n == 0 {
        (0, None)
    } else {
        let (s, r) = best_of(fs, toks, (n - 1) as nat);
        let sc = feature_score(fs[n - 1], toks);
        if sc > s {
            (sc, Some(fs[n - 1].route))
        } else {
            (s, r)
        }
    }
}

/// The screen a normalized (trimmed, lowercased) query resolves to.
pub open spec fn search_result(q: Seq<char>) -> Option<Route> {
    let toks = tokens_of(words(q));
    if q.len() == 0 || toks.len() == 0 {
        None
    } else {
        let (s, r) = best_of(features_spec(), toks, features_spec().len());
        if s < 1 {
            None
        } else {
            r
        }
    }
}

fn keyword_chars(ks: &Vec<&'static str>) -> (r: Vec<Vec<char>>)
    ensures
        r@.len() == ks@.len(),
        forall|i: int| 0 <= i < r@.len() ==> (#[trigger] r@[i])@ == ks@[i]@,
{
    let mut out: Vec<Vec<char>> = Vec::new();
    let mut i: usize = 0;
    while i < ks.len()
        invariant
            i <= ks@.len(),
            out@.len() == i,
            forall|k: int| 0 <= k < i ==> (#[trigger] out@[k])@ == ks@[k]@,
        decreases ks@.len() - i,
    {
        out.push(chars_of(ks[i]));
        i = i + 1;
    }
    out
}

fn list_contains(ks: &Vec<Vec<char>>, t: &Vec<char>) -> (r: bool)
    ensures
        r == ks@.map_values(|k: Vec<char>| k@).contains(t@),
{
    let ghost kv = ks@.map_values(|k: Vec<char>| k@);
    let mut i: usize = 0;
    while i < ks.len()
        invariant
            kv == ks@.map_values(|k: Vec<char>| k@),
            i <= ks@.len(),
            forall|k: int| 0 <= k < i ==> kv[k] != t@,
        decreases ks@.len() - i,
    {
        if chars_eq(&ks[i], t) {
            assert(kv[i as int] == t@);
            return true;
        }
        i = i + 1;
    }
    false
}

fn list_overlaps(ks: &Vec<Vec<char>>, t: &Vec<char>) -> (r: bool)
    ensures
        r == overlaps_any(ks@.map_values(|k: Vec<char>| k@), t@),
{
    let ghost kv = ks@.map_values(|k: Vec<char>| k@);
    let mut i: usize = 0;
    while i < ks.len()
        invariant
            kv == ks@.map_values(|k: Vec<char>| k@),
            i <= ks@.len(),
            forall|k: int| 0 <= k < i ==> !(contains_sub(kv[k], t@) || contains_sub(t@, kv[k])),
        decreases ks@.len() - i,
    {
        if contains_chars(&ks[i], t) || contains_chars(t, &ks[i]) {
            assert(kv[i as int] == ks@[i as int]@);
            return true;
        }
        i = i + 1;
    }
    false
}

/// Resolves an already trimmed and lowercased query to a screen: the
/// feature with the highest score wins (the earliest one on a tie), and no
/// screen is returned when nothing scores.
pub fn search_normalized(q: &str) -> (r: Option<Route>)
    ensures
        r == search_result(q@),
{
    let qc = chars_of(q);
    if qc.len() == 0 {
        return None;
    }
    let qbytes = utf8_len(q);
    let ws = split_words(&qc);
    proof {
        lemma_words_len(q@);
        lemma_encode_utf8_len(q@);
    }
    let stop = keyword_chars(&stopwords());
    assert(stop@.map_values(|k: Vec<char>| k@) =~= stopwords_spec());
    // Collect the tokens.
    let ghost wsv = words(q@);
    let mut toks: Vec<Vec<char>> = Vec::new();
    let mut i: usize = 0;
    while i < ws.len()
        invariant
            wsv == words(q@),
            ws@.len() == wsv.len() <= q@.len() <= qbytes <= isize::MAX,
            forall|k: int| 0 <= k < ws@.len() ==> (#[trigger] ws@[k])@ == wsv[k],
            stop@.map_values(|k: Vec<char>| k@) == stopwords_spec(),
            i <= ws@.len(),
            toks@.len() <= i,
            toks@.map_values(|t: Vec<char>| t@) == tokens_of(wsv.take(i as int)),
        decreases ws@.len() - i,
    {
        let w = &ws[i];
        let ws_str = string_from_chars(w);
        let blen = utf8_len(ws_str.as_str());
        let keep = blen > 1 && !list_contains(&stop, w);
        proof {
            let t = wsv.take(i + 1);
            assert(t.drop_last() =~= wsv.take(i as int));
            assert(t.last() == w@);
        }
        if keep {
            toks.push(chars_of(ws_str.as_str()));
            assert(toks@.map_values(|t: Vec<char>| t@) =~= tokens_of(wsv.take(i as int)).push(w@));
        }
        i = i + 1;
    }
    assert(wsv.take(wsv.len() as int) =~= wsv);
    let ghost tv = toks@.map_values(|t: Vec<char>| t@);
    if toks.len() == 0 {
        return None;
    }
    let fs = features();
    let mut best: Option<Route> = None;
    let mut best_score: u128 = 0;
    let mut fi: usize = 0;
    while fi < fs.len()
        invariant
            fs@.len() == features_spec().len(),
            forall|k: int| 0 <= k < fs@.len() ==> (#[trigger] fs@[k])@ == features_spec()[k],
            tv == toks@.map_values(|t: Vec<char>| t@),
            toks@.len() <= isize::MAX,
            fi <= fs@.len(),
            (best_score as nat, best) == best_of(features_spec(), tv, fi as nat),
            best_score <= 3 * toks@.len(),
        decreases fs@.len() - fi,
    {
        let f = &fs[fi];
        let exact = keyword_chars(&f.exact);
        let partial = keyword_chars(&f.partial);
        let ghost fv = features_spec()[fi as int];
        assert(exact@.map_values(|k: Vec<char>| k@) =~= fv.exact);
        assert(partial@.map_values(|k: Vec<char>| k@) =~= fv.partial);
        let mut score: u128 = 0;
        let mut ti: usize = 0;
        while ti < toks.len()
            invariant
                tv == toks@.map_values(|t: Vec<char>| t@),
                toks@.len() <= isize::MAX,
                exact@.map_values(|k: Vec<char>| k@) == fv.exact,
                partial@.map_values(|k: Vec<char>| k@) == fv.partial,
                ti <= toks@.len(),
                score == feature_score(fv, tv.take(ti as int)),
                score <= 3 * ti,
            decreases toks@.len() - ti,
        {
            let t = &toks[ti];
            let mut pts: u128 = 0;
            if list_contains(&exact, t) {
                pts = 3;
            } else {
                let ts = string_from_chars(t);
                if utf8_len(ts.as_str()) >= 4 {
                    if list_overlaps(&exact, t) {
                        pts = 1;
                    } else if list_overlaps(&partial, t) {
                        pts = 1;
                    }
                }
            }
            proof {
                let tt = tv.take(ti + 1);
                assert(tt.drop_last() =~= tv.take(ti as int));
                assert(tt.last() == t@);
                assert(pts == token_score(fv, t@));
            }
            assert(pts <= 3);
            assert(ti < toks@.len() <= isize::MAX);
            assert(score + pts <= 3 * (ti + 1));
            score = score + pts;
            ti = ti + 1;
        }
        assert(tv.take(tv.len() as int) =~= tv);
        if score > best_score {
            best_score = score;
            best = Some(f.route);
        }
        fi = fi + 1;
    }
    if best_score < 1 {
        None
    } else {
        best
    }
}

/// Resolves a free-text query to the screen it most likely asks for: the
/// query is trimmed and lowercased, then scored as [`search_normalized`] does.
pub fn search(query: &str) -> (r: Option<Route>)
    ensures
        r == search_result(lowercase_of(trim(query@))),
        all_ascii(trim(query@)) ==> r == search_result(trim(query@).map_values(|c: char| ascii_lower(c))),
{
    let t = trim_str(query);
    let q = to_lowercase(t);
    search_normalized(q.as_str())
}

} // verus!

verus! {

proof fn lemma_best_of_route(fs: Seq<FeatureSpec>, toks: Seq<Seq<char>>, n: nat)
    requires
        n <= fs.len(),
    ensures
        best_of(fs, toks, n).1 matches Some(r) ==> exists|k: int| 0 <= k < n && fs[k].route == r,
        best_of(fs, toks, n).1 is None <==> best_of(fs, toks, n).0 == 0,
    decreases n,
{
    if n > 0 {
        lemma_best_of_route(fs, toks, (n - 1) as nat);
    }
}

/// The search only ever resolves to a feature screen, never to Home, and it
/// resolves to nothing when the query has no tokens.
pub proof fn law_search_targets_features(q: Seq<char>)
    ensures
        search_result(q) != Some(Route::Home),
        tokens_of(words(q)).len() == 0 ==> search_result(q) is None,
{
    let toks = tokens_of(words(q));
    lemma_best_of_route(features_spec(), toks, features_spec().len());
    if let Some(r) = search_result(q) {
        let k = choose|k: int| 0 <= k < 5 && features_spec()[k].route == r;
        assert(features_spec()[k].route != Route::Home);
    }
}

/// A feature's score adds up the points of the tokens: the score of two
/// runs of tokens is the sum of their scores, a single token scores its
/// points (3 for one of the feature's keywords), and so every further
/// matching token strictly raises the score.
pub proof fn law_feature_score_adds(f: FeatureSpec, a: Seq<Seq<char>>, b: Seq<Seq<char>>, t: Seq<char>)
    ensures
        feature_score(f, a + b) == feature_score(f, a) + feature_score(f, b),
        feature_score(f, Seq::<Seq<char>>::empty()) == 0,
        feature_score(f, seq![t]) == token_score(f, t),
        f.exact.contains(t) ==> token_score(f, t) == 3,
        token_score(f, t) > 0 ==> feature_score(f, a.push(t)) > feature_score(f, a),
    decreases b.len(),
{
    if b.len() > 0 {
        law_feature_score_adds(f, a, b.drop_last(), t);
        assert((a + b).drop_last() =~= a + b.drop_last());
        assert((a + b).last() == b.last());
    } else {
        assert(a + b =~= a);
    }
    assert(seq![t].drop_last() =~= Seq::<Seq<char>>::empty());
    assert(a.push(t).drop_last() =~= a);
}

proof fn lemma_best_of_top(fs: Seq<FeatureSpec>, toks: Seq<Seq<char>>, n: nat)
    requires
        n <= fs.len(),
    ensures
        ({
            let (s, r) = best_of(fs, toks, n);
            &&& forall|j: int| 0 <= j < n ==> feature_score(#[trigger] fs[j], toks) <= s
            &&& r is None ==> s == 0
            &&& r matches Some(route) ==> exists|k: int| 0 <= k < n && fs[k].route == route
                && feature_score(fs[k], toks) == s
                && forall|j: int| 0 <= j < k ==> feature_score(#[trigger] fs[j], toks) < s
        }),
    decreases n,
{
    if n > 0 {
        lemma_best_of_top(fs, toks, (n - 1) as nat);
    }
}

/// The search picks the feature with the highest total score over the
/// query's tokens, the earliest one among equals, and only when that score
/// is positive; otherwise (or for an empty query) it picks nothing.
pub proof fn law_search_picks_top_score(q: Seq<char>)
    ensures
        ({
            let toks = tokens_of(words(q));
            let fs = features_spec();
            &&& search_result(q) matches Some(route) ==> exists|k: int| 0 <= k < fs.len() && fs[k].route == route
                && feature_score(fs[k], toks) >= 1
                && (forall|j: int| 0 <= j < fs.len() ==> feature_score(#[trigger] fs[j], toks) <= feature_score(fs[k], toks))
                && (forall|j: int| 0 <= j < k ==> feature_score(#[trigger] fs[j], toks) < feature_score(fs[k], toks))
            &&& search_result(q) is None && q.len() > 0 ==> forall|j: int| 0 <= j < fs.len() ==> feature_score(
                #[trigger] fs[j],
                toks,
            ) == 0
        }),
{
    let toks = tokens_of(words(q));
    let fs = features_spec();
    lemma_best_of_top(fs, toks, fs.len());
    if toks.len() == 0 {
        assert forall|j: int| 0 <= j < fs.len() implies feature_score(#[trigger] fs[j], toks) == 0 by {}
    }
}

} // verus!
