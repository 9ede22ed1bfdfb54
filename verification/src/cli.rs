//! What the program makes of its arguments.

use vstd::prelude::*;
use vstd::string::StringExecFns;

use crate::text;

verus! {

/// The lowercase mapping of the first character that is not white; nothing for a blank name.
pub open spec fn initial(name: Seq<char>) -> Seq<char> {
    if text::trimmed(name).len() == 0 {
        Seq::empty()
    } else {
        text::lowercase(text::trimmed(name)[0])
    }
}

/// The voice for the first letter of a language, if there is one.
pub open spec fn voice(initial: Seq<char>) -> Option<Seq<char>> {
    if initial == "k"@ {
        Some("kan"@)
    } else if initial == "t"@ {
        Some("tam"@)
    } else if initial == "e"@ {
        Some("eng"@)
    } else {
        None
    }
}

/// The voice for the first letter of a language, if there is one.
pub fn voice_for(initial: &String) -> (r: Option<String>)
    ensures
        match r {
            Some(v) => voice(initial@) == Some(v@),
            None => voice(initial@) is None,
        },
{
    if text::same(initial, "k") {
        Some("kan".to_owned())
    } else if text::same(initial, "t") {
        Some("tam".to_owned())
    } else if text::same(initial, "e") {
        Some("eng".to_owned())
    } else {
        None
    }
}

/// The voice for the name of a language, of which only the first letter counts.
pub fn select_language(name: &str) -> (r: Option<String>)
    ensures
        match r {
            Some(v) => voice(initial(name@)) == Some(v@),
            None => voice(initial(name@)) is None,
        },
{
    let chars = text::trim(&text::chars_of(name));
    let first = if chars.len() == 0 {
        String::new()
    } else {
        text::to_lowercase(chars[0])
    };
    assert(first@ =~= initial(name@));
    voice_for(&first)
}

/// The name of the file that is written where none is given.
pub fn output_file_name(lang: &str, timestamp: &str) -> (r: String)
    ensures
        r@ == lang@ + "-"@ + timestamp@ + ".wav"@,
{
    let mut s = lang.to_owned();
    s.append("-");
    s.append(timestamp);
    s.append(".wav");
    s
}

/// Token identifiers as the model takes them: the lower 32 bits.
pub fn model_ids(ids: &Vec<i64>) -> (r: Vec<u32>)
    ensures
        r@.len() == ids@.len(),
        forall|i: int| 0 <= i < ids@.len() ==> #[trigger] r@[i] == ids@[i] as int % 0x1_0000_0000,
{
    let mut out: Vec<u32> = Vec::new();
    let mut i: usize = 0;
    while i < ids.len()
        invariant
            i <= ids@.len(),
            out@.len() == i,
            forall|k: int| 0 <= k < i ==> #[trigger] out@[k] == ids@[k] as int % 0x1_0000_0000,
        decreases ids@.len() - i,
    {
        let lifted: i128 = ids[i] as i128 + 0x1_0000_0000_0000_0000;
        let low: u128 = lifted as u128 % 0x1_0000_0000;
        assert(low == ids@[i as int] as int % 0x1_0000_0000);
        out.push(low as u32);
        i = i + 1;
    }
    out
}

/// Of the name of a language only the first letter counts.
pub proof fn lemma_first_letter_counts(a: Seq<char>, b: Seq<char>)
    requires
        text::trimmed(a).len() > 0,
        text::trimmed(b).len() > 0,
        text::trimmed(a)[0] == text::trimmed(b)[0],
    ensures
        voice(initial(a)) == voice(initial(b)),
{
}

/// White characters before the name of a language do not count.
pub proof fn lemma_white_before(c: char, name: Seq<char>)
    requires
        text::white(c),
    ensures
        voice(initial(seq![c] + name)) == voice(initial(name)),
{
    assert((seq![c] + name).drop_first() =~= name);
    assert(text::trimmed(seq![c] + name) == text::trimmed(name));
}

/// There are three voices, each for the letter that its name begins with.
pub proof fn lemma_voices(initial: Seq<char>)
    ensures
        voice(initial) matches Some(v) ==> {
            &&& v == "kan"@ || v == "tam"@ || v == "eng"@
            &&& initial == v.take(1)
        },
        voice("k"@) == Some("kan"@),
        voice("t"@) == Some("tam"@),
        voice("e"@) == Some("eng"@),
{
    reveal_strlit("k");
    reveal_strlit("t");
    reveal_strlit("e");
    reveal_strlit("kan");
    reveal_strlit("tam");
    reveal_strlit("eng");
    assert("kan"@.take(1) =~= "k"@);
    assert("tam"@.take(1) =~= "t"@);
    assert("eng"@.take(1) =~= "e"@);
    assert("k"@[0] != "t"@[0] && "k"@[0] != "e"@[0] && "t"@[0] != "e"@[0]);
}

} // verus!
