//! Which files a voice consists of, where they are fetched from, and how progress is shown.

use vstd::prelude::*;
use vstd::string::StringExecFns;

use crate::text;

verus! {

pub const TTS_MODEL_FILE: &'static str = "model.safetensors";

pub const TTS_MODEL_CONFIG_FILE: &'static str = "config.json";

pub const TTS_TOKENIZER_CONFIG_FILE: &'static str = "tokenizer_config.json";

pub const TTS_MODEL_VOCAB_FILE: &'static str = "vocab.json";

/// The names of the files of a voice.
pub open spec fn file_names() -> Seq<Seq<char>> {
    seq![
        TTS_MODEL_FILE@,
        TTS_MODEL_CONFIG_FILE@,
        TTS_TOKENIZER_CONFIG_FILE@,
        TTS_MODEL_VOCAB_FILE@,
    ]
}

/// The names of the files of a voice.
pub fn model_files() -> (r: Vec<String>)
    ensures
        r@.map_values(|s: String| s@) == file_names(),
{
    let mut v: Vec<String> = Vec::new();
    v.push(TTS_MODEL_FILE.to_owned());
    v.push(TTS_MODEL_CONFIG_FILE.to_owned());
    v.push(TTS_TOKENIZER_CONFIG_FILE.to_owned());
    v.push(TTS_MODEL_VOCAB_FILE.to_owned());
    assert(v@.map_values(|s: String| s@) =~= file_names());
    v
}

/// The name of the folder and of the repository of a voice.
pub open spec fn voice_name(lang: Seq<char>) -> Seq<char> {
    "mms-tts-"@ + lang
}

/// The name of the folder of a voice.
pub fn voice_dir(lang: &str) -> (r: String)
    ensures
        r@ == voice_name(lang@),
{
    text::join("mms-tts-", lang)
}

/// The address of a file of a voice.
pub open spec fn url_of(lang: Seq<char>, name: Seq<char>) -> Seq<char> {
    "https://huggingface.co/facebook/"@ + voice_name(lang) + "/resolve/main"@ + "/"@ + name
}

/// The address of a file of a voice.
pub fn file_url(lang: &str, name: &str) -> (r: String)
    ensures
        r@ == url_of(lang@, name@),
{
    let mut s = "https://huggingface.co/facebook/".to_owned();
    s.append(voice_dir(lang).as_str());
    s.append("/resolve/main");
    s.append("/");
    s.append(name);
    s
}

/// A file to fetch.
#[derive(Debug)]
pub struct Fetch {
    pub name: String,
    pub url: String,
}

/// The first `n` files that are missing, in their order.
pub open spec fn missing(present: Seq<bool>, n: int) -> Seq<int>
    decreases n,
{
    if n <= 0 {
        Seq::empty()
    } else if present[n - 1] {
        missing(present, n - 1)
    } else {
        missing(present, n - 1).push(n - 1)
    }
}

/// What there is to fetch for a voice, given which of its files are present.
pub fn plan(lang: &str, present: &Vec<bool>) -> (r: Vec<Fetch>)
    requires
        present@.len() == file_names().len(),
    ensures
        ({
            let needed = missing(present@, present@.len() as int);
            &&& r@.len() == needed.len()
            &&& forall|k: int|
                0 <= k < r@.len() ==> {
                    &&& (#[trigger] r@[k]).name@ == file_names()[needed[k]]
                    &&& r@[k].url@ == url_of(lang@, file_names()[needed[k]])
                }
        }),
{
    let names = model_files();
    let ghost all = names@.map_values(|s: String| s@);
    let mut out: Vec<Fetch> = Vec::new();
    let mut i: usize = 0;
    while i < names.len()
        invariant
            i <= names@.len(),
            names@.len() == present@.len(),
            all == file_names(),
            all == names@.map_values(|s: String| s@),
            out@.len() == missing(present@, i as int).len(),
            forall|k: int|
                0 <= k < out@.len() ==> {
                    &&& (#[trigger] out@[k]).name@ == file_names()[missing(present@, i as int)[k]]
                    &&& out@[k].url@ == url_of(
                        lang@,
                        file_names()[missing(present@, i as int)[k]],
                    )
                },
        decreases names@.len() - i,
    {
        assert(all[i as int] == names@[i as int]@);
        if !present[i] {
            let url = file_url(lang, names[i].as_str());
            out.push(Fetch { name: names[i].clone(), url });
        }
        i = i + 1;
    }
    out
}

/// Exactly the files that are not present are fetched.
pub proof fn lemma_missing(present: Seq<bool>, n: int, i: int)
    requires
        0 <= n <= present.len(),
    ensures
        missing(present, n).contains(i) <==> 0 <= i < n && !present[i],
        missing(present, n).no_duplicates(),
        forall|k: int| 0 <= k < missing(present, n).len() ==> 0 <= #[trigger] missing(present, n)[k]
            < n,
    decreases n,
{
    if n > 0 {
        let before = missing(present, n - 1);
        lemma_missing(present, n - 1, i);
        if !present[n - 1] {
            assert(missing(present, n) == before.push(n - 1));
            if before.contains(i) {
                let k = choose|k: int| 0 <= k < before.len() && before[k] == i;
                assert(missing(present, n)[k] == i);
            }
            if i == n - 1 {
                assert(missing(present, n)[before.len() as int] == i);
            }
        }
    }
}

/// How far a fetch has come, and how far it had come when that was last shown.
#[derive(Clone, Copy, PartialEq, Eq, Structural, Debug)]
pub struct Progress {
    pub copied: u64,
    pub last_logged: u64,
}

/// The number of bytes between two displays.
pub const LOG_STEP: u64 = 8_388_608;

impl Progress {
    /// Whether less than a step has arrived since the last display.
    pub open spec fn wf(self) -> bool {
        self.last_logged <= self.copied && self.copied - self.last_logged < LOG_STEP
    }

    /// Nothing fetched yet.
    pub fn start() -> (r: Progress)
        ensures
            r.wf(),
            r == (Progress { copied: 0, last_logged: 0 }),
    {
        Progress { copied: 0, last_logged: 0 }
    }

    /// Counts `n` more bytes, and says whether it is time to show the progress.
    pub fn advance(&mut self, n: u64) -> (show: bool)
        requires
            old(self).wf(),
            old(self).copied + n <= u64::MAX,
        ensures
            final(self).wf(),
            final(self).copied == old(self).copied + n,
            show <==> final(self).copied - old(self).last_logged >= LOG_STEP,
            final(self).last_logged == if show {
                final(self).copied
            } else {
                old(self).last_logged
            },
    {
        self.copied = self.copied + n;
        if self.copied - self.last_logged >= LOG_STEP {
            self.last_logged = self.copied;
            true
        } else {
            false
        }
    }
}

/// The number of cells of the bar.
pub const BAR_WIDTH: usize = 30;

/// The number of full cells at a percentage.
pub open spec fn full_cells(percent: usize) -> int {
    if percent >= 100 {
        BAR_WIDTH as int
    } else {
        percent * BAR_WIDTH / 100
    }
}

/// The bar at a percentage: full cells, then empty ones.
pub open spec fn bar_at(percent: usize) -> Seq<char> {
    Seq::new(
        BAR_WIDTH as nat,
        |i: int|
            if i < full_cells(percent) {
                '\u{2588}'
            } else {
                '\u{2591}'
            },
    )
}

/// The bar at a percentage.
pub fn bar(percent: usize) -> (r: String)
    ensures
        r@ == bar_at(percent),
{
    let filled: usize = if percent >= 100 {
        BAR_WIDTH
    } else {
        percent * BAR_WIDTH / 100
    };
    let mut s = String::new();
    let mut i: usize = 0;
    while i < BAR_WIDTH
        invariant
            i <= BAR_WIDTH,
            filled == full_cells(percent),
            s@ == bar_at(percent).take(i as int),
        decreases BAR_WIDTH - i,
    {
        if i < filled {
            s.push('\u{2588}');
        } else {
            s.push('\u{2591}');
        }
        i = i + 1;
        assert(s@ =~= bar_at(percent).take(i as int));
    }
    assert(bar_at(percent).take(i as int) =~= bar_at(percent));
    s
}

/// The bar is empty at the start, full at the end, and never goes back.
pub proof fn lemma_bar(p: usize, q: usize)
    ensures
        bar_at(p).len() == 30,
        forall|k: int| 0 <= k < 30 ==> #[trigger] bar_at(0)[k] == '\u{2591}',
        forall|k: int| 0 <= k < 30 && p >= 100 ==> #[trigger] bar_at(p)[k] == '\u{2588}',
        forall|k: int|
            0 <= k < 30 && p <= q && bar_at(p)[k] == '\u{2588}' ==> #[trigger] bar_at(q)[k]
                == '\u{2588}',
{
    if p <= q && q < 100 {
        assert(p * 30 / 100 <= q * 30 / 100);
    }
}

/// The files of a voice have four different names, and lie under one address.
pub proof fn lemma_addresses(lang: Seq<char>, k: int)
    requires
        0 <= k < file_names().len(),
    ensures
        file_names().len() == 4,
        file_names()[0] == "model.safetensors"@,
        file_names()[1] == "config.json"@,
        file_names()[2] == "tokenizer_config.json"@,
        file_names()[3] == "vocab.json"@,
        url_of(lang, file_names()[k]) == "https://huggingface.co/facebook/mms-tts-"@ + lang
            + "/resolve/main/"@ + file_names()[k],
{
    reveal_strlit("https://huggingface.co/facebook/");
    reveal_strlit("mms-tts-");
    reveal_strlit("https://huggingface.co/facebook/mms-tts-");
    reveal_strlit("/resolve/main");
    reveal_strlit("/");
    reveal_strlit("/resolve/main/");
    assert("https://huggingface.co/facebook/"@ + "mms-tts-"@
        =~= "https://huggingface.co/facebook/mms-tts-"@);
    assert("/resolve/main"@ + "/"@ =~= "/resolve/main/"@);
    let (a, b, c, d) = (
        "https://huggingface.co/facebook/"@,
        "mms-tts-"@,
        "/resolve/main"@,
        "/"@,
    );
    let name = file_names()[k];
    assert(a + (b + lang) + c + d + name =~= (a + b) + lang + (c + d) + name);
}

} // verus!
