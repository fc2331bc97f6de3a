use vstd::prelude::*;
use vstd::string::StringExecFns;

verus! {

/// `parts` joined with `sep` between consecutive parts.
pub open spec fn join_seqs(parts: Seq<Seq<char>>, sep: Seq<char>) -> Seq<char>
    decreases parts.len(),
{
    if parts.len() == 0 {
        Seq::empty()
    } else if parts.len() == 1 {
        parts[0]
    } else {
        join_seqs(parts.drop_last(), sep) + sep + parts.last()
    }
}

/// The text of each string of `v`.
pub open spec fn texts(v: Seq<String>) -> Seq<Seq<char>> {
    v.map_values(|s: String| s@)
}

/// The lower-case form of a text, as `str::to_lowercase` computes it.
pub uninterp spec fn lowercase_of(text: Seq<char>) -> Seq<char>;

/// Calls `str::to_lowercase`. Its result is a function of the text alone, named
/// `lowercase_of`; what that function is (Unicode case mapping) is not stated here.
#[verifier::external_body]
pub(crate) fn to_lowercase(text: &str) -> (lowered: String)
    ensures
        lowered@ == lowercase_of(text@),
{
    text.to_lowercase()
}

/// The characters of a text, in order.
pub fn chars_of(text: &str) -> (chars: Vec<char>)
    ensures
        chars@ == text@,
{
    let n = text.unicode_len();
    let mut chars: Vec<char> = Vec::new();
    let mut i: usize = 0;
    while i < n
        invariant
            n == text@.len(),
            i <= n,
            chars@ == text@.subrange(0, i as int),
        decreases n - i,
    {
        chars.push(text.get_char(i));
        i = i + 1;
    }
    chars
}

/// Whether a letter or digit, as `char::is_alphanumeric` decides.
pub uninterp spec fn alphanumeric(c: char) -> bool;

/// Calls `char::is_alphanumeric` (alphabetic or numeric in the Unicode sense). Its
/// result is a function of the character alone, named `alphanumeric`; which characters
/// those are is not stated here.
#[verifier::external_body]
pub(crate) fn is_alphanumeric(c: char) -> (b: bool)
    ensures
        b == alphanumeric(c),
{
    c.is_alphanumeric()
}

/// For each character of `text`, whether it is a letter or digit.
pub open spec fn word_flags(text: Seq<char>) -> Seq<bool> {
    Seq::new(text.len(), |i: int| alphanumeric(text[i]))
}

/// `word` occurs in `text` at `i` as a whole word: the characters just before and just
/// after it (where there are any) are not word characters according to `flags`.
pub open spec fn whole_word_at(text: Seq<char>, flags: Seq<bool>, word: Seq<char>, i: int) -> bool {
    &&& 0 <= i
    &&& i + word.len() <= text.len()
    &&& text.subrange(i, i + word.len()) == word
    &&& (i == 0 || !flags[i - 1])
    &&& (i + word.len() == text.len() || !flags[i + word.len()])
}

/// Whether `word` occurs somewhere in `text` as a whole word.
pub open spec fn has_whole_word(text: Seq<char>, flags: Seq<bool>, word: Seq<char>) -> bool {
    exists|i: int| #[trigger] whole_word_at(text, flags, word, i)
}

/// A word found at any position, with no letter or digit just before or just after it,
/// counts as a whole-word occurrence, whatever other occurrences come earlier; and a
/// whole-word occurrence is always such a position.
pub proof fn law_whole_word_at_any_position(text: Seq<char>, word: Seq<char>, i: int)
    ensures
        (0 <= i && i + word.len() <= text.len() && text.subrange(i, i + word.len()) == word
            && (i == 0 || !alphanumeric(text[i - 1]))
            && (i + word.len() == text.len() || !alphanumeric(text[i + word.len()])))
            ==> has_whole_word(text, word_flags(text), word),
        has_whole_word(text, word_flags(text), word) ==> exists|j: int| {
            &&& 0 <= j
            &&& j + word.len() <= text.len()
            &&& #[trigger] text.subrange(j, j + word.len()) == word
            &&& (j == 0 || !alphanumeric(text[j - 1]))
            &&& (j + word.len() == text.len() || !alphanumeric(text[j + word.len()]))
        },
{
    if 0 <= i && i + word.len() <= text.len() && text.subrange(i, i + word.len()) == word
        && (i == 0 || !alphanumeric(text[i - 1]))
        && (i + word.len() == text.len() || !alphanumeric(text[i + word.len()])) {
        assert(whole_word_at(text, word_flags(text), word, i));
    }
    if has_whole_word(text, word_flags(text), word) {
        let j = choose|j: int| #[trigger] whole_word_at(text, word_flags(text), word, j);
        assert(text.subrange(j, j + word.len()) == word);
    }
}

/// The word-character flags of a text, one per character.
pub fn word_char_flags(text: &Vec<char>) -> (flags: Vec<bool>)
    ensures
        flags@ == word_flags(text@),
{
    let mut flags: Vec<bool> = Vec::new();
    let mut i: usize = 0;
    while i < text.len()
        invariant
            i <= text@.len(),
            flags@ == word_flags(text@).subrange(0, i as int),
        decreases text@.len() - i,
    {
        let b = is_alphanumeric(text[i]);
        flags.push(b);
        i = i + 1;
        assert(flags@ =~= word_flags(text@).subrange(0, i as int));
    }
    assert(flags@ =~= word_flags(text@));
    flags
}

/// Whether `needle` occurs in `hay` as a whole word, with `flags` marking the word
/// characters of `hay`.
pub fn contains_whole_word(hay: &Vec<char>, flags: &Vec<bool>, needle: &Vec<char>) -> (found: bool)
    requires
        flags@.len() == hay@.len(),
    ensures
        found == has_whole_word(hay@, flags@, needle@),
{
    let hay_len: usize = hay.len();
    let n: usize = needle.len();
    if n > hay_len {
        proof {
            assert forall|k: int| !#[trigger] whole_word_at(hay@, flags@, needle@, k) by {}
        }
        return false;
    }
    let last: usize = hay_len - n;
    let mut i: usize = 0;
    loop
        invariant_except_break
            i <= last,
        invariant
            last + n == hay@.len(),
            hay@.len() == hay_len,
            flags@.len() == hay_len,
            n == needle@.len(),
            forall|k: int| 0 <= k < i ==> !#[trigger] whole_word_at(hay@, flags@, needle@, k),
        ensures
            forall|k: int| 0 <= k <= last ==> !#[trigger] whole_word_at(hay@, flags@, needle@, k),
        decreases last - i,
    {
        let mut j: usize = 0;
        let mut same = true;
        while j < n
            invariant
                i <= last,
                last + n == hay@.len(),
                hay@.len() == hay_len,
                n == needle@.len(),
                j <= n,
                same <==> forall|t: int| 0 <= t < j ==> hay@[i + t] == needle@[t],
            decreases n - j,
        {
            if hay[i + j] != needle[j] {
                same = false;
            }
            j = j + 1;
        }
        let open_before = i == 0 || !flags[i - 1];
        let open_after = i + n == hay_len || !flags[i + n];
        if same && open_before && open_after {
            assert(hay@.subrange(i as int, i + n) =~= needle@);
            assert(whole_word_at(hay@, flags@, needle@, i as int));
            return true;
        }
        proof {
            if hay@.subrange(i as int, i + n) == needle@ {
                if !same {
                    let t = choose|t: int| 0 <= t < n && hay@[i + t] != needle@[t];
                    assert(hay@.subrange(i as int, i + n)[t] == hay@[i + t]);
                }
            }
        }
        if i == last {
            break;
        }
        i = i + 1;
    }
    proof {
        assert forall|k: int| !#[trigger] whole_word_at(hay@, flags@, needle@, k) by {
            if 0 <= k <= last {
            }
        }
    }
    false
}

/// Joins `parts` with `sep` between consecutive parts.
pub fn join_with(parts: &Vec<String>, sep: &str) -> (joined: String)
    ensures
        joined@ == join_seqs(texts(parts@), sep@),
{
    let mut joined = String::new();
    let ghost all = texts(parts@);
    let mut i: usize = 0;
    while i < parts.len()
        invariant
            i <= parts@.len(),
            all == texts(parts@),
            joined@ == join_seqs(all.take(i as int), sep@),
        decreases parts@.len() - i,
    {
        assert(all.take(i + 1).drop_last() =~= all.take(i as int));
        if i > 0 {
            joined.append(sep);
        }
        joined.append(parts[i].as_str());
        i = i + 1;
    }
    assert(all.take(parts@.len() as int) =~= all);
    joined
}

} // verus!
