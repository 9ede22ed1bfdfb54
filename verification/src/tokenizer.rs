//! From text to token identifiers.

use vstd::prelude::*;
use vstd::string::StringExecFns;

use crate::json;
use crate::json::{Json, JsonView};
use crate::text;

verus! {

/// What a `tokenizer_config.json` says.
#[derive(Debug)]
pub struct TokenizerConfigRaw {
    pub pad_token: Option<Json>,
    pub unk_token: Option<Json>,
    pub language: Option<String>,
    pub add_blank: bool,
    pub normalize: bool,
    pub phonemize: bool,
    pub is_uroman: bool,
}

impl Default for TokenizerConfigRaw {
    /// What holds where there is no such file.
    fn default() -> (r: Self)
        ensures
            r.pad_token is None,
            r.unk_token is None,
            r.language is None,
            !r.add_blank,
            !r.normalize,
            !r.phonemize,
            !r.is_uroman,
    {
        TokenizerConfigRaw {
            pad_token: None,
            unk_token: None,
            language: None,
            add_blank: false,
            normalize: false,
            phonemize: false,
            is_uroman: false,
        }
    }
}

/// What `add_blank` and `normalize` are in a file that does not mention them.
pub fn default_true() -> (r: bool)
    ensures
        r,
{
    true
}

/// Why a tokenizer cannot be built.
#[derive(Clone, Copy, PartialEq, Eq, Structural, Debug)]
pub enum TokenizerError {
    /// The text would have to be turned into phonemes first.
    Phonemize,
    /// The text would have to be romanized first.
    Uroman,
    /// The vocabulary is no object whose members are all whole numbers.
    Vocabulary,
}

/// The text of a special token: the token itself, or the member `content` of an object that
/// describes it, and else the default.
pub open spec fn token_text(value: Option<JsonView>, default: Seq<char>) -> Seq<char> {
    match value {
        Some(JsonView::Text(s)) => s,
        Some(v) => match json::member(v, "content"@) {
            Some(JsonView::Text(s)) => s,
            _ => default,
        },
        None => default,
    }
}

/// The contents of a document, if there is one.
pub open spec fn contents(value: Option<Json>) -> Option<JsonView> {
    match value {
        Some(j) => Some(j@),
        None => None,
    }
}

/// The text of a special token.
pub fn tok_str(value: &Option<Json>, default: &str) -> (r: String)
    ensures
        r@ == token_text(contents(*value), default@),
{
    match value {
        Some(Json::Text(s)) => s.clone(),
        Some(j) => match j.get("content") {
            Some(Json::Text(s)) => s.clone(),
            _ => default.to_owned(),
        },
        None => default.to_owned(),
    }
}

/// Whether a character is outside of ASCII.
pub open spec fn non_roman(c: char) -> bool {
    c as u32 >= 128
}

/// Whether a text has characters outside of ASCII.
pub fn has_non_roman_characters(s: &str) -> (r: bool)
    ensures
        r <==> exists|i: int| 0 <= i < s@.len() && non_roman(#[trigger] s@[i]),
{
    let chars = text::chars_of(s);
    let mut i: usize = 0;
    while i < chars.len()
        invariant
            i <= chars@.len(),
            chars@ == s@,
            forall|k: int| 0 <= k < i ==> !non_roman(#[trigger] s@[k]),
        decreases chars@.len() - i,
    {
        if chars[i] as u32 >= 128 {
            assert(non_roman(s@[i as int]));
            return true;
        }
        i = i + 1;
    }
    false
}

/// The position of the first token `token` at or after `from`.
pub open spec fn find_from(vocab: Seq<(Seq<char>, i64)>, token: Seq<char>, from: int) -> Option<int>
    decreases vocab.len() - from,
{
    if from < 0 || from >= vocab.len() {
        None
    } else if vocab[from].0 == token {
        Some(from)
    } else {
        find_from(vocab, token, from + 1)
    }
}

/// The identifier of a token, if it has one.
pub open spec fn lookup(vocab: Seq<(Seq<char>, i64)>, token: Seq<char>) -> Option<i64> {
    match find_from(vocab, token, 0) {
        Some(i) => Some(vocab[i].1),
        None => None,
    }
}

/// A vocabulary with an identifier for a token: in place of the one it had, or behind all others.
pub open spec fn with_token(vocab: Seq<(Seq<char>, i64)>, token: Seq<char>, id: i64) -> Seq<
    (Seq<char>, i64),
> {
    match find_from(vocab, token, 0) {
        Some(i) => vocab.update(i, (token, id)),
        None => vocab.push((token, id)),
    }
}

/// The identifier that a JSON value stands for: a whole number in the range of `i64`.
pub open spec fn identifier(v: JsonView) -> Option<i64> {
    match v {
        JsonView::Number(n) => n.signed,
        _ => None,
    }
}

/// The vocabulary that the first `n` members of an object describe.
pub open spec fn vocab_of_members(members: Seq<(Seq<char>, JsonView)>, n: int) -> Option<
    Seq<(Seq<char>, i64)>,
>
    decreases n,
{
    if n <= 0 {
        Some(Seq::empty())
    } else {
        match (vocab_of_members(members, n - 1), identifier(members[n - 1].1)) {
            (Some(v), Some(id)) => Some(with_token(v, members[n - 1].0, id)),
            _ => None,
        }
    }
}

/// The vocabulary that a document describes, in the order of its members.
pub open spec fn vocab_of(j: JsonView) -> Option<Seq<(Seq<char>, i64)>> {
    match j {
        JsonView::Object(members) => vocab_of_members(members, members.len() as int),
        _ => None,
    }
}

/// Whether no token occurs twice.
pub open spec fn distinct(vocab: Seq<(Seq<char>, i64)>) -> bool {
    forall|i: int, j: int|
        0 <= i < j < vocab.len() ==> (#[trigger] vocab[i]).0 != (#[trigger] vocab[j]).0
}

/// What a tokenizer is made of.
pub struct TokenizerView {
    /// The tokens and their identifiers; no token occurs twice.
    pub vocab: Seq<(Seq<char>, i64)>,
    pub pad_token: Seq<char>,
    pub unk_token: Seq<char>,
    pub language: Option<Seq<char>>,
    pub add_blank: bool,
    pub normalize: bool,
}

/// A tokenizer that makes a token of every character.
#[derive(Debug)]
pub struct VitsTokenizer {
    vocab: Vec<(String, i64)>,
    pad_token: String,
    unk_token: String,
    language: Option<String>,
    add_blank: bool,
    normalize: bool,
    unk_token_id: Option<i64>,
}

spec fn pairs(vocab: Seq<(String, i64)>) -> Seq<(Seq<char>, i64)> {
    vocab.map_values(|e: (String, i64)| (e.0@, e.1))
}

impl View for VitsTokenizer {
    type V = TokenizerView;

    closed spec fn view(&self) -> TokenizerView {
        TokenizerView {
            vocab: pairs(self.vocab@),
            pad_token: self.pad_token@,
            unk_token: self.unk_token@,
            language: match self.language {
                Some(s) => Some(s@),
                None => None,
            },
            add_blank: self.add_blank,
            normalize: self.normalize,
        }
    }
}

proof fn lemma_find(vocab: Seq<(Seq<char>, i64)>, token: Seq<char>, from: int)
    requires
        0 <= from,
    ensures
        match find_from(vocab, token, from) {
            Some(i) => from <= i < vocab.len() && vocab[i].0 == token && forall|k: int|
                from <= k < i ==> (#[trigger] vocab[k]).0 != token,
            None => forall|k: int| from <= k < vocab.len() ==> (#[trigger] vocab[k]).0 != token,
        },
    decreases vocab.len() - from,
{
    if from < vocab.len() && vocab[from].0 != token {
        lemma_find(vocab, token, from + 1);
    }
}

proof fn lemma_with_token_distinct(vocab: Seq<(Seq<char>, i64)>, token: Seq<char>, id: i64)
    requires
        distinct(vocab),
    ensures
        distinct(with_token(vocab, token, id)),
{
    lemma_find(vocab, token, 0);
}

fn find(vocab: &Vec<(String, i64)>, token: &str) -> (r: Option<usize>)
    ensures
        match r {
            Some(i) => i < vocab@.len() && find_from(pairs(vocab@), token@, 0) == Some(i as int),
            None => find_from(pairs(vocab@), token@, 0) is None,
        },
{
    let n = vocab.len();
    let mut i: usize = 0;
    while i < n
        invariant
            i <= n,
            n == vocab@.len(),
            find_from(pairs(vocab@), token@, 0) == find_from(pairs(vocab@), token@, i as int),
        decreases n - i,
    {
        if text::same(&vocab[i].0, token) {
            return Some(i);
        }
        i = i + 1;
    }
    None
}

fn insert(vocab: &mut Vec<(String, i64)>, token: String, id: i64)
    requires
        distinct(pairs(old(vocab)@)),
    ensures
        pairs(final(vocab)@) == with_token(pairs(old(vocab)@), token@, id),
        distinct(pairs(final(vocab)@)),
{
    proof {
        lemma_with_token_distinct(pairs(vocab@), token@, id);
    }
    let ghost before = vocab@;
    match find(vocab, token.as_str()) {
        Some(i) => {
            let ghost name = token@;
            vocab.set(i, (token, id));
            assert(pairs(vocab@) =~= pairs(before).update(i as int, (name, id)));
        },
        None => {
            let ghost name = token@;
            vocab.push((token, id));
            assert(pairs(vocab@) =~= pairs(before).push((name, id)));
        },
    }
}

fn read_vocab(j: &Json) -> (r: Option<Vec<(String, i64)>>)
    ensures
        match r {
            Some(v) => vocab_of(j@) == Some(pairs(v@)) && distinct(pairs(v@)),
            None => vocab_of(j@) is None,
        },
{
    match j {
        Json::Object(members) => {
            proof {
                json::lemma_object_view(*members);
            }
            let ghost all = j@->Object_0;
            let mut vocab: Vec<(String, i64)> = Vec::new();
            assert(pairs(vocab@) =~= Seq::<(Seq<char>, i64)>::empty());
            let n = members.len();
            let mut i: usize = 0;
            while i < n
                invariant
                    i <= n,
                    n == members@.len(),
                    n == all.len(),
                    j@ == JsonView::Object(all),
                    forall|k: int|
                        0 <= k < n ==> (#[trigger] all[k]) == (members@[k].0@, members@[k].1@),
                    vocab_of_members(all, i as int) == Some(pairs(vocab@)),
                    distinct(pairs(vocab@)),
                decreases n - i,
            {
                assert(all[i as int] == (members@[i as int].0@, members@[i as int].1@));
                let id: i64 = match &members[i].1 {
                    Json::Number(number) => match number.signed {
                        Some(id) => id,
                        None => {
                            proof {
                                lemma_bad_member(all, i as int, n as int);
                            }
                            return None;
                        },
                    },
                    _ => {
                        proof {
                            lemma_bad_member(all, i as int, n as int);
                        }
                        return None;
                    },
                };
                insert(&mut vocab, members[i].0.clone(), id);
                i = i + 1;
            }
            Some(vocab)
        },
        _ => None,
    }
}

proof fn lemma_bad_member(members: Seq<(Seq<char>, JsonView)>, i: int, n: int)
    requires
        0 <= i < n,
        identifier(members[i].1) is None,
    ensures
        vocab_of_members(members, n) is None,
    decreases n,
{
    if i < n - 1 {
        lemma_bad_member(members, i, n - 1);
    }
}

proof fn lemma_good_members(members: Seq<(Seq<char>, JsonView)>, n: int)
    requires
        n <= members.len(),
        forall|k: int| 0 <= k < members.len() ==> identifier((#[trigger] members[k]).1) is Some,
    ensures
        vocab_of_members(members, n) is Some,
    decreases n,
{
    if n > 0 {
        lemma_good_members(members, n - 1);
        assert(identifier(members[n - 1].1) is Some);
    }
}

/// Whether `serde_json` reads a map from strings to `i64` from a text.
pub uninterp spec fn reads_identifiers(s: Seq<char>) -> bool;

/// `serde_json::from_str` into a `HashMap<String, i64>`: whether it succeeds depends on the text
/// alone. It reads every member, also one that a later member of the same name takes the place of.
/// Where it succeeds, `serde_json` reads the same text into a `serde_json::Value` that is an object
/// of whole numbers in the range of `i64`.
#[verifier::external_body]
fn read_identifiers(s: &str) -> (r: bool)
    ensures
        r == reads_identifiers(s@),
        r ==> (json::text_contents(s@) matches Some(JsonView::Object(members)) && forall|k: int|
            0 <= k < members.len() ==> identifier((#[trigger] members[k]).1) is Some),
{
    serde_json::from_str::<std::collections::HashMap<String, i64>>(s).is_ok()
}

/// Whether a word stands in a text at position `i`.
pub open spec fn word_at(s: Seq<char>, i: int, word: Seq<char>) -> bool {
    word.len() > 0 && i + word.len() <= s.len() && s.subrange(i, i + word.len()) == word
}

/// The first token, at or after `from`, that stands in a text at position `i`.
pub open spec fn token_at(vocab: Seq<(Seq<char>, i64)>, s: Seq<char>, i: int, from: int) -> Option<
    int,
>
    decreases vocab.len() - from,
{
    if from < 0 || from >= vocab.len() {
        None
    } else if word_at(s, i, vocab[from].0) {
        Some(from)
    } else {
        token_at(vocab, s, i, from + 1)
    }
}

/// A text from position `i` on, in which what is not part of a token is in lower case.
pub open spec fn normalized(vocab: Seq<(Seq<char>, i64)>, s: Seq<char>, i: int) -> Seq<char>
    decreases s.len() - i,
{
    if i < 0 || i >= s.len() {
        Seq::empty()
    } else {
        match token_at(vocab, s, i, 0) {
            Some(k) => if word_at(s, i, vocab[k].0) {
                vocab[k].0 + normalized(vocab, s, i + vocab[k].0.len())
            } else {
                Seq::empty()
            },
            None => text::lowercase(s[i]) + normalized(vocab, s, i + 1),
        }
    }
}

/// The letter t with a comma below, and the one with a cedilla that stands for it.
pub open spec fn respelled(c: char) -> char {
    if c == '\u{021B}' {
        '\u{0163}'
    } else {
        c
    }
}

impl TokenizerView {
    /// The tokenizer for a configuration and a vocabulary.
    pub open spec fn of(raw: TokenizerConfigRaw, vocab: Seq<(Seq<char>, i64)>) -> TokenizerView {
        TokenizerView {
            vocab,
            pad_token: token_text(contents(raw.pad_token), "<pad>"@),
            unk_token: token_text(contents(raw.unk_token), "<unk>"@),
            language: match raw.language {
                Some(s) => Some(s@),
                None => None,
            },
            add_blank: raw.add_blank,
            normalize: raw.normalize,
        }
    }

    /// Whether a character is a token by itself.
    pub open spec fn knows(self, c: char) -> bool {
        find_from(self.vocab, seq![c], 0) is Some
    }

    /// A text, respelled where the language asks for it.
    pub open spec fn preprocessed(self, s: Seq<char>) -> Seq<char> {
        if self.language == Some("ron"@) {
            s.map_values(|c: char| respelled(c))
        } else {
            s
        }
    }

    /// The text that is made into tokens.
    pub open spec fn prepared(self, s: Seq<char>) -> Seq<char> {
        if self.normalize {
            text::trimmed(
                self.preprocessed(normalized(self.vocab, s, 0)).filter(|c: char| self.knows(c)),
            )
        } else {
            self.preprocessed(s)
        }
    }

    /// The position, below `n`, of the last token with an identifier.
    pub open spec fn last_with(self, id: i64, n: int) -> Option<int>
        decreases n,
    {
        if n <= 0 {
            None
        } else if self.vocab[n - 1].1 == id {
            Some(n - 1)
        } else {
            self.last_with(id, n - 1)
        }
    }

    /// The token that an identifier stands for: of several the last one.
    pub open spec fn token_of(self, id: i64) -> Option<Seq<char>> {
        match self.last_with(id, self.vocab.len() as int) {
            Some(i) => Some(self.vocab[i].0),
            None => None,
        }
    }

    /// The token that stands between all others: the one with the identifier zero, and else the
    /// padding.
    pub open spec fn blank(self) -> Seq<char> {
        match self.token_of(0) {
            Some(token) => token,
            None => self.pad_token,
        }
    }

    /// A token for every character, with blanks before, between and behind them where they are
    /// asked for.
    pub open spec fn tokens(self, s: Seq<char>) -> Seq<Seq<char>> {
        if self.add_blank {
            Seq::new(
                2 * s.len() + 1,
                |i: int|
                    if i % 2 == 0 {
                        self.blank()
                    } else {
                        seq![s[i / 2]]
                    },
            )
        } else {
            Seq::new(s.len(), |i: int| seq![s[i]])
        }
    }

    /// The identifier of a token, or that of the unknown token, or zero.
    pub open spec fn id(self, token: Seq<char>) -> i64 {
        match lookup(self.vocab, token) {
            Some(id) => id,
            None => match lookup(self.vocab, self.unk_token) {
                Some(id) => id,
                None => 0,
            },
        }
    }

    /// The identifiers of the tokens of a text.
    pub open spec fn ids(self, s: Seq<char>) -> Seq<i64> {
        self.tokens(self.prepared(s)).map_values(|t: Seq<char>| self.id(t))
    }
}

impl VitsTokenizer {
    #[verifier::type_invariant]
    spec fn inv(self) -> bool {
        &&& distinct(pairs(self.vocab@))
        &&& self.unk_token_id == lookup(pairs(self.vocab@), self.unk_token@)
    }

    /// The tokenizer for a configuration and the text of a `vocab.json`.
    pub fn from_pretrained(raw: TokenizerConfigRaw, vocab_text: &str) -> (r: Result<
        VitsTokenizer,
        TokenizerError,
    >)
        ensures
            match r {
                Ok(t) => {
                    &&& !raw.phonemize && !raw.is_uroman
                    &&& reads_identifiers(vocab_text@)
                    &&& json::text_contents(vocab_text@) is Some
                    &&& vocab_of(json::text_contents(vocab_text@)->0) is Some
                    &&& t@ == TokenizerView::of(
                        raw,
                        vocab_of(json::text_contents(vocab_text@)->0)->0,
                    )
                    &&& distinct(t@.vocab)
                },
                Err(TokenizerError::Phonemize) => raw.phonemize,
                Err(TokenizerError::Uroman) => !raw.phonemize && raw.is_uroman,
                Err(TokenizerError::Vocabulary) => {
                    &&& !raw.phonemize && !raw.is_uroman
                    &&& !reads_identifiers(vocab_text@)
                },
            },
    {
        if raw.phonemize {
            return Err(TokenizerError::Phonemize);
        }
        if raw.is_uroman {
            return Err(TokenizerError::Uroman);
        }
        if !read_identifiers(vocab_text) {
            return Err(TokenizerError::Vocabulary);
        }
        proof {
            let members = json::text_contents(vocab_text@)->0->Object_0;
            lemma_good_members(members, members.len() as int);
        }
        match json::parse(vocab_text) {
            Ok(vocab) => VitsTokenizer::from_vocab(raw, &vocab),
            Err(_) => Err(TokenizerError::Vocabulary),
        }
    }

    /// The tokenizer for a configuration and the document with the vocabulary.
    pub fn from_vocab(raw: TokenizerConfigRaw, vocab: &Json) -> (r: Result<
        VitsTokenizer,
        TokenizerError,
    >)
        ensures
            match r {
                Ok(t) => {
                    &&& !raw.phonemize && !raw.is_uroman
                    &&& vocab_of(vocab@) is Some
                    &&& t@ == TokenizerView::of(raw, vocab_of(vocab@)->0)
                    &&& distinct(t@.vocab)
                },
                Err(TokenizerError::Phonemize) => raw.phonemize,
                Err(TokenizerError::Uroman) => !raw.phonemize && raw.is_uroman,
                Err(TokenizerError::Vocabulary) => !raw.phonemize && !raw.is_uroman && vocab_of(
                    vocab@,
                ) is None,
            },
    {
        if raw.phonemize {
            return Err(TokenizerError::Phonemize);
        }
        if raw.is_uroman {
            return Err(TokenizerError::Uroman);
        }
        let pad_token = tok_str(&raw.pad_token, "<pad>");
        let unk_token = tok_str(&raw.unk_token, "<unk>");
        let vocab = match read_vocab(vocab) {
            Some(v) => v,
            None => return Err(TokenizerError::Vocabulary),
        };
        let unk_token_id = match find(&vocab, unk_token.as_str()) {
            Some(i) => Some(vocab[i].1),
            None => None,
        };
        Ok(
            VitsTokenizer {
                vocab,
                pad_token,
                unk_token,
                language: raw.language,
                add_blank: raw.add_blank,
                normalize: raw.normalize,
                unk_token_id,
            },
        )
    }

    /// The number of tokens.
    pub fn vocab_size(&self) -> (r: usize)
        ensures
            r == self@.vocab.len(),
            distinct(self@.vocab),
    {
        proof {
            use_type_invariant(self);
        }
        self.vocab.len()
    }

    fn find_token_at(&self, chars: &Vec<char>, i: usize) -> (r: Option<usize>)
        requires
            i < chars@.len(),
        ensures
            match r {
                Some(k) => k < self.vocab@.len() && token_at(self@.vocab, chars@, i as int, 0)
                    == Some(k as int) && word_at(chars@, i as int, self.vocab@[k as int].0@),
                None => token_at(self@.vocab, chars@, i as int, 0) is None,
            },
    {
        let n = self.vocab.len();
        let mut k: usize = 0;
        while k < n
            invariant
                k <= n,
                n == self.vocab@.len(),
                i < chars@.len(),
                token_at(self@.vocab, chars@, i as int, 0) == token_at(
                    self@.vocab,
                    chars@,
                    i as int,
                    k as int,
                ),
            decreases n - k,
        {
            let word = text::chars_of(self.vocab[k].0.as_str());
            if matches_at(chars, i, &word) {
                return Some(k);
            }
            k = k + 1;
        }
        None
    }

    /// The text with what is not part of a token in lower case. Where several tokens match, the
    /// first one of the vocabulary counts.
    pub fn normalize_text(&self, text: &str) -> (r: String)
        ensures
            r@ == normalized(self@.vocab, text@, 0),
    {
        let chars = text::chars_of(text);
        let mut out = String::new();
        let mut i: usize = 0;
        assert(out@ + normalized(self@.vocab, chars@, 0) =~= normalized(self@.vocab, chars@, 0));
        while i < chars.len()
            invariant
                i <= chars@.len(),
                chars@ == text@,
                out@ + normalized(self@.vocab, chars@, i as int) == normalized(
                    self@.vocab,
                    chars@,
                    0,
                ),
            decreases chars@.len() - i,
        {
            let ghost before = out@;
            match self.find_token_at(&chars, i) {
                Some(k) => {
                    let word = self.vocab[k].0.as_str();
                    let len: usize = text::chars_of(word).len();
                    out.append(word);
                    proof {
                        let rest = normalized(self@.vocab, chars@, i + len);
                        assert(before + (word@ + rest) =~= out@ + rest);
                    }
                    i = i + len;
                },
                None => {
                    let lower = text::to_lowercase(chars[i]);
                    out.append(lower.as_str());
                    proof {
                        let rest = normalized(self@.vocab, chars@, i + 1);
                        assert(before + (lower@ + rest) =~= out@ + rest);
                    }
                    i = i + 1;
                },
            }
        }
        assert(out@ + Seq::<char>::empty() =~= out@);
        out
    }

    /// The text, respelled where the language asks for it.
    pub fn preprocess_char(&self, text: String) -> (r: String)
        ensures
            r@ == self@.preprocessed(text@),
    {
        let romanian = match &self.language {
            Some(l) => text::same(l, "ron"),
            None => false,
        };
        if romanian {
            let chars = text::chars_of(text.as_str());
            let mut out = String::new();
            let mut i: usize = 0;
            while i < chars.len()
                invariant
                    i <= chars@.len(),
                    out@ == chars@.take(i as int).map_values(|c: char| respelled(c)),
                decreases chars@.len() - i,
            {
                let c = chars[i];
                if c == '\u{021B}' {
                    out.push('\u{0163}');
                } else {
                    out.push(c);
                }
                i = i + 1;
                assert(out@ =~= chars@.take(i as int).map_values(|c: char| respelled(c)));
            }
            assert(chars@.take(i as int) =~= text@);
            out
        } else {
            text
        }
    }

    fn known_chars(&self, text: &str) -> (r: Vec<char>)
        ensures
            r@ == text@.filter(|c: char| self@.knows(c)),
    {
        let chars = text::chars_of(text);
        let ghost known = |c: char| self@.knows(c);
        let mut out: Vec<char> = Vec::new();
        let mut i: usize = 0;
        proof {
            reveal(Seq::filter);
        }
        while i < chars.len()
            invariant
                i <= chars@.len(),
                known == (|c: char| self@.knows(c)),
                out@ == chars@.take(i as int).filter(known),
            decreases chars@.len() - i,
        {
            proof {
                reveal(Seq::filter);
                assert(chars@.take(i + 1).drop_last() =~= chars@.take(i as int));
                assert(chars@.take(i + 1).last() == chars@[i as int]);
            }
            let token = text::single(chars[i]);
            if find(&self.vocab, token.as_str()).is_some() {
                out.push(chars[i]);
            }
            i = i + 1;
        }
        assert(chars@.take(i as int) =~= chars@);
        out
    }

    /// The text that is made into tokens: normalized and without anything that is no token, where
    /// that is asked for.
    pub fn prepare_text(&self, text: &str) -> (r: Result<String, TokenizerError>)
        ensures
            r is Ok,
            r->Ok_0@ == self@.prepared(text@),
    {
        let prepared = if self.normalize {
            self.normalize_text(text)
        } else {
            text.to_owned()
        };
        let prepared = self.preprocess_char(prepared);
        if self.normalize {
            let known = self.known_chars(prepared.as_str());
            Ok(text::string_of(&text::trim(&known)))
        } else {
            Ok(prepared)
        }
    }

    fn blank_token(&self) -> (r: String)
        ensures
            r@ == self@.blank(),
    {
        let n = self.vocab.len();
        let mut i: usize = n;
        while i > 0
            invariant
                i <= n,
                n == self.vocab@.len(),
                self@.last_with(0, n as int) == self@.last_with(0, i as int),
            decreases i,
        {
            i = i - 1;
            if self.vocab[i].1 == 0 {
                return self.vocab[i].0.clone();
            }
        }
        self.pad_token.clone()
    }

    /// A token for every character of the text, and blanks where they are asked for.
    pub fn tokenize(&self, text: &str) -> (r: Vec<String>)
        ensures
            r@.map_values(|s: String| s@) == self@.tokens(text@),
    {
        let chars = text::chars_of(text);
        let blank = self.blank_token();
        let mut tokens: Vec<String> = Vec::new();
        if self.add_blank {
            tokens.push(blank.clone());
        }
        let ghost view = |s: String| s@;
        let ghost step: int = if self.add_blank {
            2
        } else {
            1
        };
        let ghost extra: int = if self.add_blank {
            1
        } else {
            0
        };
        let mut i: usize = 0;
        while i < chars.len()
            invariant
                i <= chars@.len(),
                chars@ == text@,
                blank@ == self@.blank(),
                step == (if self.add_blank {
                    2int
                } else {
                    1int
                }),
                extra == (if self.add_blank {
                    1int
                } else {
                    0int
                }),
                tokens@.len() == step * i + extra,
                forall|k: int|
                    0 <= k < tokens@.len() ==> (#[trigger] tokens@[k])@ == self@.tokens(text@)[k],
            decreases chars@.len() - i,
        {
            tokens.push(text::single(chars[i]));
            if self.add_blank {
                tokens.push(blank.clone());
            }
            i = i + 1;
        }
        assert(tokens@.map_values(|s: String| s@) =~= self@.tokens(text@));
        tokens
    }

    /// The identifier of a token, or that of the unknown token, or zero.
    pub fn convert_token_to_id(&self, token: &str) -> (r: i64)
        ensures
            r == self@.id(token@),
    {
        proof {
            use_type_invariant(self);
        }
        match find(&self.vocab, token) {
            Some(i) => self.vocab[i].1,
            None => match self.unk_token_id {
                Some(id) => id,
                None => 0,
            },
        }
    }

    /// The identifiers of the tokens of a text.
    pub fn encode(&self, text: &str) -> (r: Result<Vec<i64>, TokenizerError>)
        ensures
            r is Ok,
            r->Ok_0@ == self@.ids(text@),
    {
        let prepared = self.prepare_text(text)?;
        let tokens = self.tokenize(prepared.as_str());
        let ghost texts = tokens@.map_values(|s: String| s@);
        let mut ids: Vec<i64> = Vec::new();
        let mut i: usize = 0;
        while i < tokens.len()
            invariant
                i <= tokens@.len(),
                texts == tokens@.map_values(|s: String| s@),
                ids@.len() == i,
                forall|k: int| 0 <= k < i ==> #[trigger] ids@[k] == self@.id(texts[k]),
            decreases tokens@.len() - i,
        {
            assert(texts[i as int] == tokens@[i as int]@);
            ids.push(self.convert_token_to_id(tokens[i].as_str()));
            i = i + 1;
        }
        assert(ids@ =~= self@.ids(text@));
        Ok(ids)
    }

    /// The identifiers of the tokens of a text, and the mask that says that all of them count.
    pub fn call(&self, text: &str) -> (r: Result<(Vec<i64>, Vec<i64>), TokenizerError>)
        ensures
            r is Ok,
            r->Ok_0.0@ == self@.ids(text@),
            r->Ok_0.1@ == Seq::new(self@.ids(text@).len(), |i: int| 1i64),
    {
        let ids = self.encode(text)?;
        let mut attention_mask: Vec<i64> = Vec::new();
        let mut i: usize = 0;
        while i < ids.len()
            invariant
                i <= ids@.len(),
                attention_mask@ == Seq::new(i as nat, |k: int| 1i64),
            decreases ids@.len() - i,
        {
            attention_mask.push(1);
            i = i + 1;
            assert(attention_mask@ =~= Seq::new(i as nat, |k: int| 1i64));
        }
        Ok((ids, attention_mask))
    }
}

fn matches_at(chars: &Vec<char>, i: usize, word: &Vec<char>) -> (r: bool)
    requires
        i <= chars@.len(),
    ensures
        r == word_at(chars@, i as int, word@),
{
    let n = chars.len();
    if word.len() == 0 || word.len() > n - i {
        return false;
    }
    let mut k: usize = 0;
    while k < word.len()
        invariant
            k <= word@.len(),
            n == chars@.len(),
            i + word@.len() <= n,
            forall|m: int| 0 <= m < k ==> chars@[i + m] == #[trigger] word@[m],
        decreases word@.len() - k,
    {
        if chars[i + k] != word[k] {
            assert(chars@.subrange(i as int, i + word@.len())[k as int] != word@[k as int]);
            return false;
        }
        k = k + 1;
    }
    assert(chars@.subrange(i as int, i + word@.len()) =~= word@);
    true
}

/// Where every character of a text is a token, normalization changes nothing.
pub proof fn lemma_normalized_known(t: TokenizerView, s: Seq<char>, i: int)
    requires
        0 <= i <= s.len(),
        forall|k: int| 0 <= k < s.len() ==> t.knows(#[trigger] s[k]),
    ensures
        normalized(t.vocab, s, i) == s.skip(i),
    decreases s.len() - i,
{
    if i < s.len() {
        assert(t.knows(s[i]));
        lemma_find(t.vocab, seq![s[i]], 0);
        let j = find_from(t.vocab, seq![s[i]], 0)->0;
        assert(word_at(s, i, t.vocab[j].0)) by {
            assert(s.subrange(i, i + 1) =~= seq![s[i]]);
        }
        lemma_token_at(t.vocab, s, i, 0, j);
        let k = token_at(t.vocab, s, i, 0)->0;
        let word = t.vocab[k].0;
        lemma_normalized_known(t, s, i + word.len());
        assert(word + s.skip(i + word.len()) =~= s.skip(i)) by {
            assert(s.subrange(i, i + word.len()) == word);
        }
    } else {
        assert(s.skip(i) =~= Seq::empty());
    }
}

proof fn lemma_token_at(
    vocab: Seq<(Seq<char>, i64)>,
    s: Seq<char>,
    i: int,
    from: int,
    j: int,
)
    requires
        0 <= from <= j < vocab.len(),
        word_at(s, i, vocab[j].0),
    ensures
        token_at(vocab, s, i, from) is Some,
        from <= token_at(vocab, s, i, from)->0 < vocab.len(),
        word_at(s, i, vocab[token_at(vocab, s, i, from)->0].0),
    decreases vocab.len() - from,
{
    if !word_at(s, i, vocab[from].0) {
        lemma_token_at(vocab, s, i, from + 1, j);
    }
}

spec fn all_known(t: TokenizerView, s: Seq<char>) -> bool {
    forall|i: int| 0 <= i < s.len() ==> t.knows(#[trigger] s[i])
}

/// What is left of a text by the filter and by trimming.
proof fn lemma_kept(t: TokenizerView, s: Seq<char>)
    ensures
        ({
            let kept = s.filter(|c: char| t.knows(c));
            let known = text::trimmed(kept);
            &&& all_known(t, known)
            &&& forall|i: int| 0 <= i < known.len() ==> s.contains(#[trigger] known[i])
        }),
{
    let knows = |c: char| t.knows(c);
    let kept = s.filter(knows);
    let known = text::trimmed(kept);
    text::lemma_trim_part(kept);
    let (a, b) = choose|a: int, b: int|
        0 <= a <= b <= kept.len() && known == #[trigger] kept.subrange(a, b);
    assert forall|i: int| 0 <= i < known.len() implies t.knows(#[trigger] known[i]) && s.contains(
        known[i],
    ) by {
        assert(known[i] == kept[a + i]);
        s.lemma_filter_pred(knows, a + i);
        lemma_filter_part(s, knows, a + i);
    }
}

proof fn lemma_filter_part(s: Seq<char>, pred: spec_fn(char) -> bool, i: int)
    requires
        0 <= i < s.filter(pred).len(),
    ensures
        s.contains(s.filter(pred)[i]),
    decreases s.len(),
{
    reveal(Seq::filter);
    if s.len() > 0 {
        let rest = s.drop_last();
        if i < rest.filter(pred).len() {
            lemma_filter_part(rest, pred, i);
            let k = choose|k: int| 0 <= k < rest.len() && rest[k] == rest.filter(pred)[i];
            assert(s[k] == s.filter(pred)[i]);
        } else {
            assert(s[s.len() - 1] == s.filter(pred)[i]);
        }
    }
}

proof fn lemma_filter_all(s: Seq<char>, pred: spec_fn(char) -> bool)
    requires
        forall|i: int| 0 <= i < s.len() ==> pred(#[trigger] s[i]),
    ensures
        s.filter(pred) == s,
    decreases s.len(),
{
    reveal(Seq::filter);
    if s.len() > 0 {
        let rest = s.drop_last();
        assert forall|i: int| 0 <= i < rest.len() implies pred(#[trigger] rest[i]) by {
            assert(pred(s[i]));
        }
        lemma_filter_all(rest, pred);
        assert(pred(s[s.len() - 1]));
        assert(rest.push(s.last()) =~= s);
    }
}

/// Every character of a prepared text is a token, where the text is normalized.
pub proof fn lemma_prepared_known(t: TokenizerView, s: Seq<char>)
    requires
        t.normalize,
    ensures
        forall|i: int| 0 <= i < t.prepared(s).len() ==> t.knows(#[trigger] t.prepared(s)[i]),
{
    lemma_kept(t, t.preprocessed(normalized(t.vocab, s, 0)));
}

/// Preparing a text that is prepared already changes nothing.
pub proof fn lemma_prepare_twice(t: TokenizerView, s: Seq<char>)
    ensures
        t.prepared(t.prepared(s)) == t.prepared(s),
{
    let p = t.prepared(s);
    if t.normalize {
        let spelled = t.preprocessed(normalized(t.vocab, s, 0));
        lemma_kept(t, spelled);
        lemma_normalized_known(t, p, 0);
        assert(p.skip(0) =~= p);
        assert(t.preprocessed(p) =~= p) by {
            if t.language == Some("ron"@) {
                assert forall|i: int| 0 <= i < p.len() implies respelled(#[trigger] p[i])
                    == p[i] by {
                    assert(spelled.contains(p[i]));
                }
            }
        }
        lemma_filter_all(p, |c: char| t.knows(c));
        text::lemma_trim_twice(spelled.filter(|c: char| t.knows(c)));
    } else {
        assert(t.preprocessed(p) =~= p);
    }
}

/// With blanks, the tokens of a text are the blank, the first character, the blank, and so on: a
/// blank at every even place, and the characters at the odd ones.
pub proof fn lemma_blanks(t: TokenizerView, s: Seq<char>)
    requires
        t.add_blank,
    ensures
        t.tokens(s).len() == 2 * s.len() + 1,
        forall|i: int| 0 <= i <= s.len() ==> #[trigger] t.tokens(s)[2 * i] == t.blank(),
        forall|i: int| 0 <= i < s.len() ==> #[trigger] t.tokens(s)[2 * i + 1] == seq![s[i]],
{
    assert forall|i: int| 0 <= i < s.len() implies #[trigger] t.tokens(s)[2 * i + 1] == seq![
        s[i],
    ] by {
        assert((2 * i + 1) / 2 == i);
    }
}

/// A normalized text has no unknown tokens: every character has an identifier of its own.
pub proof fn lemma_no_unknown(t: TokenizerView, s: Seq<char>, i: int)
    requires
        t.normalize,
        0 <= i < t.prepared(s).len(),
    ensures
        ({
            let c = t.prepared(s)[i];
            let place = if t.add_blank {
                2 * i + 1
            } else {
                i
            };
            &&& lookup(t.vocab, seq![c]) is Some
            &&& t.ids(s)[place] == lookup(t.vocab, seq![c])->0
        }),
{
    lemma_prepared_known(t, s);
    assert(t.knows(t.prepared(s)[i]));
    if t.add_blank {
        lemma_blanks(t, t.prepared(s));
        assert(t.tokens(t.prepared(s))[2 * i + 1] == seq![t.prepared(s)[i]]);
    }
}

proof fn lemma_last_with(t: TokenizerView, id: i64, n: int)
    requires
        0 <= n <= t.vocab.len(),
    ensures
        match t.last_with(id, n) {
            Some(i) => 0 <= i < n && t.vocab[i].1 == id,
            None => forall|i: int| 0 <= i < n ==> (#[trigger] t.vocab[i]).1 != id,
        },
    decreases n,
{
    if n > 0 {
        lemma_last_with(t, id, n - 1);
    }
}

/// Identifiers stand for tokens as tokens have identifiers: an identifier stands for a token if and
/// only if some token has it, and then for one that has it.
pub proof fn lemma_inverse_map(t: TokenizerView, id: i64)
    requires
        distinct(t.vocab),
    ensures
        t.token_of(id) is Some <==> exists|i: int|
            0 <= i < t.vocab.len() && (#[trigger] t.vocab[i]).1 == id,
        t.token_of(id) matches Some(token) ==> lookup(t.vocab, token) == Some(id),
{
    lemma_last_with(t, id, t.vocab.len() as int);
    if let Some(i) = t.last_with(id, t.vocab.len() as int) {
        lemma_find(t.vocab, t.vocab[i].0, 0);
    }
}

/// The blank has the identifier zero where any token has it, and else it is the padding.
pub proof fn lemma_blank(t: TokenizerView)
    requires
        distinct(t.vocab),
    ensures
        (exists|i: int| 0 <= i < t.vocab.len() && (#[trigger] t.vocab[i]).1 == 0) ==> lookup(
            t.vocab,
            t.blank(),
        ) == Some(0i64) && t.id(t.blank()) == 0,
        (forall|i: int| 0 <= i < t.vocab.len() ==> (#[trigger] t.vocab[i]).1 != 0) ==> t.blank()
            == t.pad_token,
{
    lemma_inverse_map(t, 0);
}

/// Where tokens match, the first one of the vocabulary that does is kept as it is; where none does,
/// the character is lowered.
pub proof fn lemma_normalized_step(t: TokenizerView, s: Seq<char>, i: int)
    requires
        0 <= i < s.len(),
    ensures
        (forall|k: int| 0 <= k < t.vocab.len() ==> !word_at(s, i, (#[trigger] t.vocab[k]).0))
            ==> normalized(t.vocab, s, i) == text::lowercase(s[i]) + normalized(t.vocab, s, i + 1),
        forall|k: int|
            0 <= k < t.vocab.len() && word_at(s, i, (#[trigger] t.vocab[k]).0) && (forall|l: int|
                0 <= l < k ==> !word_at(s, i, (#[trigger] t.vocab[l]).0)) ==> normalized(
                t.vocab,
                s,
                i,
            ) == t.vocab[k].0 + normalized(t.vocab, s, i + t.vocab[k].0.len()),
{
    lemma_first_token(t.vocab, s, i, 0);
}

proof fn lemma_first_token(vocab: Seq<(Seq<char>, i64)>, s: Seq<char>, i: int, from: int)
    requires
        0 <= from,
    ensures
        match token_at(vocab, s, i, from) {
            Some(k) => from <= k < vocab.len() && word_at(s, i, vocab[k].0) && forall|l: int|
                from <= l < k ==> !word_at(s, i, (#[trigger] vocab[l]).0),
            None => forall|l: int|
                from <= l < vocab.len() ==> !word_at(s, i, (#[trigger] vocab[l]).0),
        },
    decreases vocab.len() - from,
{
    if from < vocab.len() && !word_at(s, i, vocab[from].0) {
        lemma_first_token(vocab, s, i, from + 1);
    }
}

/// Romanian text has every t with a comma below respelled with a cedilla, and nothing else changed;
/// text in other languages is left as it is.
pub proof fn lemma_respelled(t: TokenizerView, s: Seq<char>)
    ensures
        t.language != Some("ron"@) ==> t.preprocessed(s) == s,
        t.preprocessed(s).len() == s.len(),
        t.language == Some("ron"@) ==> forall|i: int|
            0 <= i < s.len() ==> #[trigger] t.preprocessed(s)[i] == if s[i] == '\u{021B}' {
                '\u{0163}'
            } else {
                s[i]
            },
{
}

/// A token that the vocabulary does not hold has the identifier of the unknown token, and zero
/// where the vocabulary does not hold that one either.
pub proof fn lemma_unknown(t: TokenizerView, token: Seq<char>)
    requires
        forall|k: int| 0 <= k < t.vocab.len() ==> (#[trigger] t.vocab[k]).0 != token,
    ensures
        forall|k: int|
            0 <= k < t.vocab.len() && distinct(t.vocab) && (#[trigger] t.vocab[k]).0 == t.unk_token
                ==> t.id(token) == t.vocab[k].1,
        (forall|k: int| 0 <= k < t.vocab.len() ==> (#[trigger] t.vocab[k]).0 != t.unk_token)
            ==> t.id(token) == 0,
{
    lemma_find(t.vocab, token, 0);
    lemma_find(t.vocab, t.unk_token, 0);
}

/// A token of the vocabulary has the identifier that stands beside it.
pub proof fn lemma_known(t: TokenizerView, k: int)
    requires
        distinct(t.vocab),
        0 <= k < t.vocab.len(),
    ensures
        t.id(t.vocab[k].0) == t.vocab[k].1,
{
    lemma_find(t.vocab, t.vocab[k].0, 0);
}

/// Without blanks there is one token for every character, in order.
pub proof fn lemma_no_blanks(t: TokenizerView, s: Seq<char>)
    requires
        !t.add_blank,
    ensures
        t.tokens(s).len() == s.len(),
        forall|i: int| 0 <= i < s.len() ==> #[trigger] t.tokens(s)[i] == seq![s[i]],
{
}

} // verus!
