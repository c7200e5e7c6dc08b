use crate::text::{chars_of, push_all, string_of, truncate_at_boundary, utf8_len};
use std::collections::hash_map::DefaultHasher;
use std::hash::Hasher;
use vstd::prelude::*;
use vstd::std_specs::hash::DefaultHasherAdditionalSpecFns;
use vstd::utf8::encode_utf8;

verus! {

/// Whether `char::is_alphanumeric` holds of `c` (Unicode `Alphabetic` or
/// `Numeric`).
pub uninterp spec fn unicode_alphanumeric(c: char) -> bool;

/// What `str::to_lowercase` returns for a text (Unicode lowercase mapping).
pub uninterp spec fn unicode_lowercase(s: Seq<char>) -> Seq<char>;

/// `char::is_alphanumeric` from std. Trusted: its result is
/// [`unicode_alphanumeric`] of the character; nothing more is stated of it.
pub assume_specification[ char::is_alphanumeric ](c: char) -> (b: bool)
    ensures
        b == unicode_alphanumeric(c),
;

/// `str::to_lowercase` from std. Trusted: its result is [`unicode_lowercase`]
/// of the text; nothing more is stated of it.
pub assume_specification[ str::to_lowercase ](s: &str) -> (r: String)
    ensures
        r@ == unicode_lowercase(s@),
;

/// The value `DefaultHasher` gives a string hashed through `Hash for str`,
/// which writes the string's UTF-8 bytes and then the byte `0xff`.
pub open spec fn str_hash(s: Seq<char>) -> u64 {
    DefaultHasher::spec_finish(seq![encode_utf8(s), seq![0xffu8]])
}

/// Hashes a string with a fresh `DefaultHasher`, feeding it exactly what
/// `Hash for str` feeds it.
pub fn hash_str(s: &str) -> (h: u64)
    ensures
        h == str_hash(s@),
{
    let mut hasher = DefaultHasher::new();
    hasher.write(s.as_bytes());
    let end: [u8; 1] = [0xffu8];
    hasher.write(&end);
    assert(end@ =~= seq![0xffu8]);
    assert(hasher@ =~= seq![encode_utf8(s@), seq![0xffu8]]);
    hasher.finish()
}

/// The punctuation on which the embedder splits text.
pub open spec fn token_punctuation() -> Seq<char> {
    seq![
        '{',
        '}',
        '(',
        ')',
        '[',
        ']',
        '<',
        '>',
        ';',
        ':',
        ',',
        '.',
        '\'',
        '"',
        '`',
        '!',
        '@',
        '#',
        '$',
        '%',
        '^',
        '&',
        '*',
        '+',
        '-',
        '=',
        '|',
        '\\',
        '/',
        '~',
        '?',
    ]
}

/// The characters on which the embedder splits text: white space and
/// `{}()[]<>;:,.'"`!@#$%^&*+-=|\/~?`.
pub open spec fn is_token_separator(c: char) -> bool {
    crate::text::is_ws(c) || token_punctuation().contains(c)
}

fn is_separator(c: char) -> (b: bool)
    ensures
        b == is_token_separator(c),
{
    let punct: [char; 31] = [
        '{',
        '}',
        '(',
        ')',
        '[',
        ']',
        '<',
        '>',
        ';',
        ':',
        ',',
        '.',
        '\'',
        '"',
        '`',
        '!',
        '@',
        '#',
        '$',
        '%',
        '^',
        '&',
        '*',
        '+',
        '-',
        '=',
        '|',
        '\\',
        '/',
        '~',
        '?',
    ];
    let ghost lit = token_punctuation();
    assert(punct@ =~= lit);
    if crate::text::is_whitespace(c) {
        return true;
    }
    let mut i: usize = 0;
    while i < 31
        invariant
            i <= 31,
            punct@ == lit,
            lit == token_punctuation(),
            forall|j: int| 0 <= j < i ==> lit[j] != c,
        decreases 31 - i,
    {
        if punct[i] == c {
            assert(lit[i as int] == c);
            assert(lit.contains(c));
            return true;
        }
        i = i + 1;
    }
    assert(!lit.contains(c));
    false
}

/// The token a word gives once lowercased, if it is at least two bytes long.
pub open spec fn emit(word: Seq<char>) -> Seq<Seq<char>> {
    let t = unicode_lowercase(word);
    if encode_utf8(t).len() >= 2 {
        seq![t]
    } else {
        seq![]
    }
}

/// The tokens of `s`, `word` being the alphanumeric-or-`_` characters of the
/// current piece read so far. Pieces are what lies between separators; each
/// piece keeps its alphanumeric and `_` characters, is lowercased, and is a
/// token when that leaves at least two bytes.
pub open spec fn tokens_from(s: Seq<char>, word: Seq<char>) -> Seq<Seq<char>>
    decreases s.len(),
{
    if s.len() == 0 {
        emit(word)
    } else if is_token_separator(s[0]) {
        emit(word) + tokens_from(s.drop_first(), seq![])
    } else if unicode_alphanumeric(s[0]) || s[0] == '_' {
        tokens_from(s.drop_first(), word.push(s[0]))
    } else {
        tokens_from(s.drop_first(), word)
    }
}

/// The tokens of a text.
pub open spec fn tokens_of(s: Seq<char>) -> Seq<Seq<char>> {
    tokens_from(s, seq![])
}

fn emit_into(out: &mut Vec<String>, word: &[char])
    ensures
        final(out).deep_view() == old(out).deep_view() + emit(word@),
{
    let w = string_of(word);
    let t = w.as_str().to_lowercase();
    let n = t.as_str().as_bytes().len();
    if n >= 2 {
        let ghost before = out.deep_view();
        let ghost tv = t@;
        out.push(t);
        assert(out.deep_view() =~= before + seq![tv]);
    } else {
        assert(out.deep_view() + Seq::<Seq<char>>::empty() =~= out.deep_view());
    }
}

/// The tokens of a text (see [`tokens_of`]).
pub fn tokenize(text: &str) -> (out: Vec<String>)
    ensures
        out.deep_view() == tokens_of(text@),
{
    let cs = chars_of(text);
    let mut out: Vec<String> = Vec::new();
    let mut word: Vec<char> = Vec::new();
    let mut i: usize = 0;
    assert(cs@.skip(0) =~= cs@);
    while i < cs.len()
        invariant
            i <= cs@.len(),
            cs@ == text@,
            out.deep_view() + tokens_from(cs@.skip(i as int), word@) == tokens_of(text@),
        decreases cs@.len() - i,
    {
        let c = cs[i];
        assert(cs@.skip(i as int).drop_first() =~= cs@.skip(i + 1));
        if is_separator(c) {
            let ghost before = out.deep_view();
            emit_into(&mut out, word.as_slice());
            assert(before + (emit(word@) + tokens_from(cs@.skip(i + 1), seq![])) =~= out.deep_view()
                + tokens_from(cs@.skip(i + 1), seq![]));
            word = Vec::new();
        } else if c.is_alphanumeric() || c == '_' {
            word.push(c);
        }
        i = i + 1;
    }
    let ghost before = out.deep_view();
    emit_into(&mut out, word.as_slice());
    assert(cs@.skip(i as int) =~= Seq::<char>::empty());
    out
}

proof fn lemma_token_punctuation(c: char)
    ensures
        token_punctuation().contains(c) <==> (c == '{' || c == '}' || c == '(' || c == ')' || c == '[' || c == ']' || c == '<' || c == '>' || c == ';' || c == ':' || c == ',' || c == '.' || c == '\'' || c == '"' || c == '`' || c == '!' || c == '@' || c == '#' || c == '$' || c == '%' || c == '^' || c == '&' || c == '*' || c == '+' || c == '-' || c == '=' || c == '|' || c == '\\' || c == '/' || c == '~' || c == '?'),
{
    let p = token_punctuation();
    if p.contains(c) {
        let i = choose|i: int| 0 <= i < p.len() && p[i] == c;
        assert(i == 0 || i == 1 || i == 2 || i == 3 || i == 4 || i == 5 || i == 6 || i == 7 || i == 8 || i == 9 || i == 10 || i == 11 || i == 12 || i == 13 || i == 14 || i == 15 || i == 16 || i == 17 || i == 18 || i == 19 || i == 20 || i == 21 || i == 22 || i == 23 || i == 24 || i == 25 || i == 26 || i == 27 || i == 28 || i == 29 || i == 30);
    }
    if c == '{' || c == '}' || c == '(' || c == ')' || c == '[' || c == ']' || c == '<' || c == '>' || c == ';' || c == ':' || c == ',' || c == '.' || c == '\'' || c == '"' || c == '`' || c == '!' || c == '@' || c == '#' || c == '$' || c == '%' || c == '^' || c == '&' || c == '*' || c == '+' || c == '-' || c == '=' || c == '|' || c == '\\' || c == '/' || c == '~' || c == '?' {
        if c == '{' {
            assert(p[0] == c);
        }
        if c == '}' {
            assert(p[1] == c);
        }
        if c == '(' {
            assert(p[2] == c);
        }
        if c == ')' {
            assert(p[3] == c);
        }
        if c == '[' {
            assert(p[4] == c);
        }
        if c == ']' {
            assert(p[5] == c);
        }
        if c == '<' {
            assert(p[6] == c);
        }
        if c == '>' {
            assert(p[7] == c);
        }
        if c == ';' {
            assert(p[8] == c);
        }
        if c == ':' {
            assert(p[9] == c);
        }
        if c == ',' {
            assert(p[10] == c);
        }
        if c == '.' {
            assert(p[11] == c);
        }
        if c == '\'' {
            assert(p[12] == c);
        }
        if c == '"' {
            assert(p[13] == c);
        }
        if c == '`' {
            assert(p[14] == c);
        }
        if c == '!' {
            assert(p[15] == c);
        }
        if c == '@' {
            assert(p[16] == c);
        }
        if c == '#' {
            assert(p[17] == c);
        }
        if c == '$' {
            assert(p[18] == c);
        }
        if c == '%' {
            assert(p[19] == c);
        }
        if c == '^' {
            assert(p[20] == c);
        }
        if c == '&' {
            assert(p[21] == c);
        }
        if c == '*' {
            assert(p[22] == c);
        }
        if c == '+' {
            assert(p[23] == c);
        }
        if c == '-' {
            assert(p[24] == c);
        }
        if c == '=' {
            assert(p[25] == c);
        }
        if c == '|' {
            assert(p[26] == c);
        }
        if c == '\\' {
            assert(p[27] == c);
        }
        if c == '/' {
            assert(p[28] == c);
        }
        if c == '~' {
            assert(p[29] == c);
        }
        if c == '?' {
            assert(p[30] == c);
        }
    }
}

proof fn lemma_tokens_split_at(s: Seq<char>, word: Seq<char>, c: char, t: Seq<char>)
    requires
        is_token_separator(c),
    ensures
        tokens_from(s + seq![c] + t, word) == tokens_from(s, word) + tokens_from(t, seq![]),
    decreases s.len(),
{
    let u = s + seq![c] + t;
    if s.len() == 0 {
        assert(u.drop_first() =~= t);
        assert(u[0] == c);
    } else {
        assert(u.drop_first() =~= s.drop_first() + seq![c] + t);
        assert(u[0] == s[0]);
        if is_token_separator(s[0]) {
            lemma_tokens_split_at(s.drop_first(), seq![], c, t);
            assert(emit(word) + (tokens_from(s.drop_first(), seq![]) + tokens_from(t, seq![]))
                =~= (emit(word) + tokens_from(s.drop_first(), seq![])) + tokens_from(t, seq![]));
        } else if unicode_alphanumeric(s[0]) || s[0] == '_' {
            lemma_tokens_split_at(s.drop_first(), word.push(s[0]), c, t);
        } else {
            lemma_tokens_split_at(s.drop_first(), word, c, t);
        }
    }
}

/// The embedder splits text exactly at white space and at
/// `` {}()[]<>;:,.'"`!@#$%^&*+-=|\/~? ``, and such a character keeps the
/// tokens on either side of it apart: the tokens of `s`, the character and
/// `t` are the tokens of `s` followed by the tokens of `t` (so
/// `self.db.query` gives the tokens of `self`, `db` and `query`).
pub proof fn lemma_token_separators_split(s: Seq<char>, c: char, t: Seq<char>)
    ensures
        is_token_separator(c) <==> (crate::text::is_ws(c) || c == '{' || c == '}' || c == '(' || c == ')' || c == '[' || c == ']' || c == '<' || c == '>' || c == ';' || c == ':' || c == ',' || c == '.' || c == '\'' || c == '"' || c == '`' || c == '!' || c == '@' || c == '#' || c == '$' || c == '%' || c == '^' || c == '&' || c == '*' || c == '+' || c == '-' || c == '=' || c == '|' || c == '\\' || c == '/' || c == '~' || c == '?'),
        is_token_separator(c) ==> tokens_of(s + seq![c] + t) == tokens_of(s) + tokens_of(t),
{
    lemma_token_punctuation(c);
    if is_token_separator(c) {
        lemma_tokens_split_at(s, seq![], c, t);
    }
}

/// The kind of an embedding feature: one token, two or three consecutive tokens.
#[derive(Clone, Copy, Debug, PartialEq, Eq, Structural)]
pub enum FeatureKind {
    Unigram,
    Bigram,
    Trigram,
}

/// Where a feature lands in the embedding: its bucket, the sign it is added
/// with, its kind (which fixes its weight) and its length in bytes.
#[derive(Clone, Copy, Debug, PartialEq, Eq, Structural)]
pub struct HashedFeature {
    pub bucket: usize,
    pub negative: bool,
    pub kind: FeatureKind,
    pub byte_len: usize,
}

/// Two tokens joined by `__`.
pub open spec fn join_tokens(a: Seq<char>, b: Seq<char>) -> Seq<char> {
    a + seq!['_', '_'] + b
}

/// Every token, as a unigram feature.
pub open spec fn unigrams(ts: Seq<Seq<char>>) -> Seq<(Seq<char>, FeatureKind)> {
    Seq::new(ts.len(), |i: int| (ts[i], FeatureKind::Unigram))
}

/// Every pair of consecutive tokens, joined, as a bigram feature.
pub open spec fn bigrams(ts: Seq<Seq<char>>) -> Seq<(Seq<char>, FeatureKind)> {
    Seq::new(
        if ts.len() >= 2 {
            (ts.len() - 1) as nat
        } else {
            0
        },
        |i: int| (join_tokens(ts[i], ts[i + 1]), FeatureKind::Bigram),
    )
}

/// Every triple of consecutive tokens, joined, as a trigram feature.
pub open spec fn trigrams(ts: Seq<Seq<char>>) -> Seq<(Seq<char>, FeatureKind)> {
    Seq::new(
        if ts.len() >= 3 {
            (ts.len() - 2) as nat
        } else {
            0
        },
        |i: int| (join_tokens(join_tokens(ts[i], ts[i + 1]), ts[i + 2]), FeatureKind::Trigram),
    )
}

/// Where a feature lands in an embedding of `size` buckets: the bucket is its
/// hash, taken as a `usize`, modulo `size`, and bit 32 of the hash makes it
/// negative.
pub open spec fn hashed(f: Seq<char>, kind: FeatureKind, size: u64) -> HashedFeature {
    HashedFeature {
        bucket: ((str_hash(f) as usize) % (size as usize)) as usize,
        negative: (str_hash(f) >> 32u64) & 1u64 == 1u64,
        kind,
        byte_len: encode_utf8(f).len() as usize,
    }
}

/// The features of a text in the order they are added: unigrams, then
/// bigrams, then trigrams.
pub open spec fn feature_plan_spec(text: Seq<char>, size: u64) -> Seq<HashedFeature> {
    let ts = tokens_of(text);
    (unigrams(ts) + bigrams(ts) + trigrams(ts)).map_values(
        |p: (Seq<char>, FeatureKind)| hashed(p.0, p.1, size),
    )
}


/// The features of a sequence, placed in an embedding of `size` buckets.
pub open spec fn plan_of(fs: Seq<(Seq<char>, FeatureKind)>, size: u64) -> Seq<HashedFeature> {
    fs.map_values(|p: (Seq<char>, FeatureKind)| hashed(p.0, p.1, size))
}

fn plan_feature(f: &[char], kind: FeatureKind, size: u64) -> (r: HashedFeature)
    requires
        0 < size <= 0xffff_ffff,
    ensures
        r == hashed(f@, kind, size),
{
    let s = string_of(f);
    let h = hash_str(s.as_str());
    let n = s.as_str().as_bytes().len();
    HashedFeature { bucket: (h as usize) % (size as usize), negative: (h >> 32u64) & 1u64 == 1u64, kind, byte_len: n }
}

fn join_chars(a: &[char], b: &[char]) -> (r: Vec<char>)
    ensures
        r@ == join_tokens(a@, b@),
{
    let mut r = crate::text::slice_chars(a, 0, a.len());
    assert(a@.subrange(0, a@.len() as int) =~= a@);
    r.push('_');
    r.push('_');
    push_all(&mut r, b);
    assert(r@ =~= join_tokens(a@, b@));
    r
}

/// Turns hashed text features into a dense vector: the local embedder.
pub struct HashEmbedder {
    size: u64,
}

impl HashEmbedder {
    #[verifier::type_invariant]
    spec fn inv(self) -> bool {
        self.size == 384
    }

    /// The number of buckets (dimensions) of the embeddings.
    pub closed spec fn dims(&self) -> u64 {
        self.size
    }

    /// An embedder of 384 dimensions.
    pub fn new() -> (e: Self)
        ensures
            e.dims() == 384,
    {
        HashEmbedder { size: 384 }
    }

    /// The number of dimensions of the embeddings: always 384.
    pub fn vector_size(&self) -> (n: u64)
        ensures
            n == self.dims(),
            n == 384,
    {
        proof {
            use_type_invariant(self);
        }
        self.size
    }

    /// The part of a text that is embedded: at most its first 16000 bytes,
    /// cut at a character boundary.
    pub fn embed_input<'a>(&self, text: &'a str) -> (r: &'a str)
        ensures
            encode_utf8(text@).len() <= 16000 ==> r@ == text@,
            encode_utf8(text@).len() > 16000 ==> encode_utf8(r@) == encode_utf8(text@).take(
                crate::text::floor_boundary(encode_utf8(text@), 16000),
            ),
    {
        truncate_at_boundary(text, 16000)
    }

    /// Where each feature of a text lands in its embedding
    /// (see [`feature_plan_spec`]).
    pub fn feature_plan(&self, text: &str) -> (r: Vec<HashedFeature>)
        ensures
            r@ == feature_plan_spec(text@, self.dims()),
    {
        proof {
            use_type_invariant(self);
        }
        let size = self.size;
        let ts = tokenize(text);
        let ghost tv = ts.deep_view();
        let n = ts.len();
        let mut toks: Vec<Vec<char>> = Vec::new();
        let mut i: usize = 0;
        while i < n
            invariant
                n == ts@.len(),
                tv == ts.deep_view(),
                i <= n,
                toks@.len() == i,
                forall|j: int| 0 <= j < i ==> #[trigger] toks@[j]@ == tv[j],
            decreases n - i,
        {
            let c = chars_of(ts[i].as_str());
            toks.push(c);
            i = i + 1;
        }
        let mut out: Vec<HashedFeature> = Vec::new();
        let mut i: usize = 0;
        while i < n
            invariant
                0 < size <= 0xffff_ffff,
                n == toks@.len(),
                n == tv.len(),
                forall|j: int| 0 <= j < n ==> #[trigger] toks@[j]@ == tv[j],
                i <= n,
                out@ == plan_of(unigrams(tv).take(i as int), size),
            decreases n - i,
        {
            let f = plan_feature(toks[i].as_slice(), FeatureKind::Unigram, size);
            out.push(f);
            i = i + 1;
            assert(unigrams(tv).take(i as int) =~= unigrams(tv).take(i - 1).push(
                unigrams(tv)[i - 1],
            ));
            assert(out@ =~= plan_of(unigrams(tv).take(i as int), size));
        }
        assert(unigrams(tv).take(n as int) =~= unigrams(tv));
        let mut i: usize = 0;
        while i + 1 < n
            invariant
                0 < size <= 0xffff_ffff,
                n == toks@.len(),
                n == tv.len(),
                forall|j: int| 0 <= j < n ==> #[trigger] toks@[j]@ == tv[j],
                i + 1 <= n || i == 0,
                out@ == plan_of(unigrams(tv) + bigrams(tv).take(i as int), size),
            decreases n - i,
        {
            let jn = join_chars(toks[i].as_slice(), toks[i + 1].as_slice());
            let f = plan_feature(jn.as_slice(), FeatureKind::Bigram, size);
            out.push(f);
            i = i + 1;
            assert(bigrams(tv).take(i as int) =~= bigrams(tv).take(i - 1).push(bigrams(tv)[i - 1]));
            assert(out@ =~= plan_of(unigrams(tv) + bigrams(tv).take(i as int), size));
        }
        assert(bigrams(tv).take(i as int) =~= bigrams(tv));
        let mut i: usize = 0;
        while i + 2 < n
            invariant
                0 < size <= 0xffff_ffff,
                n == toks@.len(),
                n == tv.len(),
                forall|j: int| 0 <= j < n ==> #[trigger] toks@[j]@ == tv[j],
                i + 2 <= n || i == 0,
                out@ == plan_of(unigrams(tv) + bigrams(tv) + trigrams(tv).take(i as int), size),
            decreases n - i,
        {
            let j1 = join_chars(toks[i].as_slice(), toks[i + 1].as_slice());
            let j2 = join_chars(j1.as_slice(), toks[i + 2].as_slice());
            let f = plan_feature(j2.as_slice(), FeatureKind::Trigram, size);
            out.push(f);
            i = i + 1;
            assert(trigrams(tv).take(i as int) =~= trigrams(tv).take(i - 1).push(
                trigrams(tv)[i - 1],
            ));
            assert(out@ =~= plan_of(
                unigrams(tv) + bigrams(tv) + trigrams(tv).take(i as int),
                size,
            ));
        }
        assert(trigrams(tv).take(i as int) =~= trigrams(tv));
        out
    }
}

} // verus!
