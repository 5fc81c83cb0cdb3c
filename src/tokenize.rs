use tantivy::tokenizer::{
    Language, LowerCaser, RemoveLongFilter, SimpleTokenizer, Stemmer, TextAnalyzer, TokenStream,
};
use vstd::prelude::*;

verus! {

/// Upper bound, in bytes, on the length of a raw token that is kept: longer
/// runs (encoded blobs and the like) never reach the index.
pub const MAX_TOKEN_LEN: usize = 40;

/// Prefix of the name under which an index registers the analyzer of its
/// content field; the language follows it.
pub const TOKENIZER_PREFIX: &'static str = "custom_stemmer_";

/// Declares tantivy's text analyzer, which an index registers for its
/// content field; nothing here looks inside it.
#[verifier::external_type_specification]
#[verifier::external_body]
pub struct ExTextAnalyzer(TextAnalyzer);

/// The terms, each with its token position, that the analyzer for `lang`
/// makes of `text`, keeping raw tokens shorter than `max_len` bytes.
pub uninterp spec fn analyzed_terms(text: Seq<char>, max_len: nat, lang: Language) -> Seq<
    (Seq<char>, nat),
>;

/// A normalized term and its position among the tokens of the text.
pub struct Term {
    pub text: String,
    pub position: usize,
}

/// The views of a list of terms.
pub open spec fn terms_view(v: Seq<Term>) -> Seq<(Seq<char>, nat)> {
    v.map_values(|t: Term| (t.text@, t.position as nat))
}

/// The analyzer of an index's content field, with the language and the
/// token length limit that it was built with.
pub struct ContentAnalyzer {
    analyzer: TextAnalyzer,
    lang: Language,
    max_len: usize,
}

impl ContentAnalyzer {
    /// The stemmer language of the pipeline.
    pub closed spec fn lang(&self) -> Language {
        self.lang
    }

    /// The byte length from which raw tokens are dropped.
    pub closed spec fn max_len(&self) -> nat {
        self.max_len as nat
    }

    /// The tantivy analyzer itself, for an index to register.
    pub fn into_inner(self) -> TextAnalyzer {
        self.analyzer
    }
}

/// Relies on tantivy's `TextAnalyzer` chain of `SimpleTokenizer` (runs of
/// alphanumeric characters), `RemoveLongFilter::limit(max_len)`,
/// `LowerCaser` and `Stemmer::new(lang)`: the analyzer records the language
/// and limit that were handed to the chain.
#[verifier::external_body]
fn build_analyzer(lang: Language, max_len: usize) -> (r: ContentAnalyzer)
    ensures
        r.lang() == lang,
        r.max_len() == max_len as nat,
{
    let analyzer = TextAnalyzer::builder(SimpleTokenizer::default())
        .filter(RemoveLongFilter::limit(max_len))
        .filter(LowerCaser)
        .filter(Stemmer::new(lang))
        .build();
    ContentAnalyzer { analyzer, lang, max_len }
}

/// Relies on tantivy's `TextAnalyzer::token_stream` over the chain that
/// `build_analyzer` made: the terms and their positions depend on the text,
/// the limit and the language alone, and a text without characters gives no
/// term. The analyzer keeps its language and limit.
#[verifier::external_body]
fn analyze(a: &mut ContentAnalyzer, text: &str) -> (r: Vec<Term>)
    ensures
        terms_view(r@) == analyzed_terms(text@, old(a).max_len(), old(a).lang()),
        text@.len() == 0 ==> r@.len() == 0,
        final(a).lang() == old(a).lang(),
        final(a).max_len() == old(a).max_len(),
{
    let mut stream = a.analyzer.token_stream(text);
    let mut terms = Vec::new();
    while stream.advance() {
        terms.push(Term { text: stream.token().text.clone(), position: stream.token().position });
    }
    terms
}

/// The analyzer that an index of language `lang` registers for its content
/// field: the one pipeline with which documents are indexed and queries are
/// read, and which `tokenize` runs.
pub fn content_analyzer(lang: Language) -> (r: ContentAnalyzer)
    ensures
        r.lang() == lang,
        r.max_len() == MAX_TOKEN_LEN as nat,
{
    build_analyzer(lang, MAX_TOKEN_LEN)
}

/// The normalized terms of `text` for language `lang`, in order, each with
/// its token position: what the content field of an index holds for it.
pub fn tokenize(text: &str, lang: Language) -> (r: Vec<Term>)
    ensures
        terms_view(r@) == analyzed_terms(text@, MAX_TOKEN_LEN as nat, lang),
        text@.len() == 0 ==> r@.len() == 0,
{
    let mut a = content_analyzer(lang);
    analyze(&mut a, text)
}

/// Tokenizing is repeatable: the same text in the same language gives the
/// same terms each time.
pub proof fn tokenize_is_repeatable(a: Seq<char>, b: Seq<char>, lang: Language)
    requires
        a == b,
    ensures
        analyzed_terms(a, MAX_TOKEN_LEN as nat, lang) == analyzed_terms(
            b,
            MAX_TOKEN_LEN as nat,
            lang,
        ),
{
}

} // verus!
