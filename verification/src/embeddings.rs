use crate::text::{chars_of, has_prefix, push_all, starts_with, string_of, truncate_at_boundary};
use vstd::prelude::*;
use vstd::utf8::encode_utf8;

verus! {

/// `s` with every non-overlapping occurrence of `pat` (found from the left)
/// replaced by `rep`, as `str::replace` does for a non-empty pattern.
pub open spec fn replace_all(s: Seq<char>, pat: Seq<char>, rep: Seq<char>) -> Seq<char>
    recommends
        pat.len() > 0,
    decreases s.len(),
{
    if s.len() == 0 {
        seq![]
    } else if pat.len() > 0 && starts_with(s, pat) {
        rep + replace_all(s.skip(pat.len() as int), pat, rep)
    } else {
        seq![s[0]] + replace_all(s.drop_first(), pat, rep)
    }
}

/// `s` with every occurrence of the non-empty `pat` replaced by `rep`.
pub fn replace_chars(s: &[char], pat: &[char], rep: &[char]) -> (r: Vec<char>)
    requires
        pat@.len() > 0,
    ensures
        r@ == replace_all(s@, pat@, rep@),
{
    let mut r: Vec<char> = Vec::new();
    let mut i: usize = 0;
    assert(s@.skip(0) =~= s@);
    while i < s.len()
        invariant
            i <= s@.len(),
            s@.len() == s.len(),
            pat@.len() > 0,
            r@ + replace_all(s@.skip(i as int), pat@, rep@) == replace_all(s@, pat@, rep@),
        decreases s@.len() - i,
    {
        let rest = crate::text::slice_chars(s, i, s.len());
        assert(rest@ =~= s@.skip(i as int));
        if has_prefix(rest.as_slice(), pat) {
            let ghost before = r@;
            push_all(&mut r, rep);
            assert(s@.skip(i as int).skip(pat@.len() as int) =~= s@.skip(i + pat@.len()));
            assert(before + (rep@ + replace_all(s@.skip(i + pat@.len()), pat@, rep@)) =~= r@
                + replace_all(s@.skip(i + pat@.len()), pat@, rep@));
            i = i + pat.len();
        } else {
            let ghost before = r@;
            r.push(s[i]);
            assert(s@.skip(i as int).drop_first() =~= s@.skip(i + 1));
            assert(before + (seq![s@[i as int]] + replace_all(s@.skip(i + 1), pat@, rep@)) =~= r@
                + replace_all(s@.skip(i + 1), pat@, rep@));
            i = i + 1;
        }
    }
    assert(s@.skip(i as int) =~= Seq::<char>::empty());
    assert(r@ + Seq::<char>::empty() =~= r@);
    r
}

/// The chat endpoint that goes with an embeddings endpoint: `/embeddings`
/// replaced by `/chat/completions` everywhere in the URL.
pub open spec fn chat_url_for(url: Seq<char>) -> Seq<char> {
    replace_all(
        url,
        seq!['/', 'e', 'm', 'b', 'e', 'd', 'd', 'i', 'n', 'g', 's'],
        seq!['/', 'c', 'h', 'a', 't', '/', 'c', 'o', 'm', 'p', 'l', 'e', 't', 'i', 'o', 'n', 's'],
    )
}

/// Settings of an OpenAI-compatible embedding and chat service.
pub struct OpenAIEmbedder {
    pub api_key: String,
    pub url: String,
    pub chat_url: String,
    pub embedding_model: String,
    pub chat_model: String,
    pub size: u64,
}

impl OpenAIEmbedder {
    /// Settings for an embeddings endpoint; the chat endpoint is derived from it.
    pub fn new(
        api_key: String,
        url: String,
        embedding_model: String,
        chat_model: String,
        size: u64,
    ) -> (e: Self)
        ensures
            e.api_key@ == api_key@,
            e.url@ == url@,
            e.chat_url@ == chat_url_for(url@),
            e.embedding_model@ == embedding_model@,
            e.chat_model@ == chat_model@,
            e.size == size,
    {
        let cs = chars_of(url.as_str());
        let c = replace_chars(
            cs.as_slice(),
            &['/', 'e', 'm', 'b', 'e', 'd', 'd', 'i', 'n', 'g', 's'],
            &['/', 'c', 'h', 'a', 't', '/', 'c', 'o', 'm', 'p', 'l', 'e', 't', 'i', 'o', 'n', 's'],
        );
        let chat_url = string_of(c.as_slice());
        OpenAIEmbedder { api_key, url, chat_url, embedding_model, chat_model, size }
    }

    /// The number of dimensions the service is configured for.
    pub fn vector_size(&self) -> (n: u64)
        ensures
            n == self.size,
    {
        self.size
    }

    /// The part of a text sent to the service: at most its first 8000 bytes,
    /// cut at a character boundary.
    pub fn embed_input<'a>(&self, text: &'a str) -> (r: &'a str)
        ensures
            encode_utf8(text@).len() <= 8000 ==> r@ == text@,
            encode_utf8(text@).len() > 8000 ==> encode_utf8(r@) == encode_utf8(text@).take(
                crate::text::floor_boundary(encode_utf8(text@), 8000),
            ),
    {
        truncate_at_boundary(text, 8000)
    }
}

/// The user message of a chat request: the code context, then the question.
pub open spec fn chat_user_content_spec(context: Seq<char>, query: Seq<char>) -> Seq<char> {
    "CONTEXTO DEL CODIGO:\n"@ + context + "\n\nPREGUNTA: "@ + query
}

/// The user message of a chat request (see [`chat_user_content_spec`]).
pub fn chat_user_content(context: &str, query: &str) -> (s: String)
    ensures
        s@ == chat_user_content_spec(context@, query@),
{
    let mut v = chars_of("CONTEXTO DEL CODIGO:\n");
    let c = chars_of(context);
    push_all(&mut v, c.as_slice());
    let m = chars_of("\n\nPREGUNTA: ");
    push_all(&mut v, m.as_slice());
    let q = chars_of(query);
    push_all(&mut v, q.as_slice());
    string_of(v.as_slice())
}

/// An embedder that gives the zero vector of a fixed size to every text.
pub struct MockEmbedder {
    size: u64,
}

impl MockEmbedder {
    /// The configured number of dimensions.
    pub closed spec fn dims(&self) -> u64 {
        self.size
    }

    /// An embedder of `size` dimensions.
    pub fn new(size: u64) -> (e: Self)
        ensures
            e.dims() == size,
    {
        MockEmbedder { size }
    }

    /// The number of dimensions of its vectors.
    pub fn vector_size(&self) -> (n: u64)
        ensures
            n == self.dims(),
    {
        self.size
    }
}

} // verus!
