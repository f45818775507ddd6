//! Transcript cleanup. It is applied to what is handed to the focused application; listeners get
//! the transcript verbatim.
//!
//! Spoken filler words ("um", "uh", ...) are dropped, and the spacing and the leading capital
//! that their removal disturbs are put right. The list of fillers can be configured as text
//! with commas or white space between the words; an empty list switches the cleanup off.

use vstd::prelude::*;

use crate::text;
use crate::text::{chars_of, string_of, Class};
use crate::unicode;
use crate::unicode::{is_alphabetic, to_unicode_uppercase};

verus! {

/// The fillers that are dropped where nothing else is configured. Only sounds that are almost
/// never meaningful.
pub open spec fn default_set() -> Seq<Seq<char>> {
    seq!["um"@, "umm"@, "uh"@, "uhm"@, "erm"@, "er"@, "hmm"@]
}

/// Every member of `list` with its ASCII capitals made small.
pub open spec fn lowercase_all(list: Seq<Seq<char>>) -> Seq<Seq<char>> {
    list.map_values(|w: Seq<char>| unicode::ascii_lowercase(w))
}

/// The fillers that a configuration names: the words between commas and white space, in lower
/// case; without a configuration, the default ones.
pub open spec fn filler_set(configured: Option<Seq<char>>) -> Seq<Seq<char>> {
    match configured {
        Some(list) => lowercase_all(text::non_empty(text::split(list, Class::ListSeparator))),
        None => default_set(),
    }
}

/// The token without the symbols around it, in lower case.
pub open spec fn kernel(token: Seq<char>) -> Seq<char> {
    unicode::ascii_lowercase(text::trim_class(token, Class::Symbol))
}

/// The kernel of the token is in the set. A token of symbols alone has no kernel.
pub open spec fn filler(token: Seq<char>, set: Seq<Seq<char>>) -> bool {
    kernel(token).len() > 0 && set.contains(kernel(token))
}

/// The tokens that are no fillers, in order.
pub open spec fn keep(tokens: Seq<Seq<char>>, set: Seq<Seq<char>>) -> Seq<Seq<char>>
    decreases tokens.len(),
{
    if tokens.len() == 0 {
        Seq::empty()
    } else {
        let before = keep(tokens.drop_last(), set);
        if filler(tokens.last(), set) {
            before
        } else {
            before.push(tokens.last())
        }
    }
}

/// `s` with its first letter made a capital.
pub open spec fn capitalize(s: Seq<char>) -> Seq<char>
    decreases s.len(),
{
    if s.len() == 0 {
        s
    } else if unicode::alphabetic(s[0]) {
        unicode::uppercase(s[0]) + s.drop_first()
    } else {
        seq![s[0]] + capitalize(s.drop_first())
    }
}

/// A transcript after cleanup.
pub open spec fn stripped(transcript: Seq<char>, set: Seq<Seq<char>>) -> Seq<char> {
    if set.len() == 0 {
        text::trim(transcript)
    } else {
        capitalize(text::join(keep(text::words(transcript), set)))
    }
}

fn push_filler(out: &mut Vec<String>, word: &str)
    ensures
        text::string_views(final(out)@) == text::string_views(old(out)@).push(word@),
{
    let word = word.to_owned();
    proof {
        text::lemma_string_views_push(out@, word);
    }
    out.push(word);
}

/// The active fillers, in lower case, from the configured list if there is one.
pub fn fillers(configured: Option<&str>) -> (r: Vec<String>)
    ensures
        text::string_views(r@) == filler_set(
            match configured {
                Some(list) => Some(list@),
                None => None,
            },
        ),
{
    let mut out: Vec<String> = Vec::new();
    match configured {
        Some(list) => {
            let words = text::split_non_empty(&chars_of(list), Class::ListSeparator);
            let ghost all = text::non_empty(text::split(list@, Class::ListSeparator));
            assert(text::string_views(out@) =~= lowercase_all(all.take(0)));
            for i in 0..words.len()
                invariant
                    text::views(words@) == all,
                    text::string_views(out@) == lowercase_all(all.take(i as int)),
            {
                assert(words@[i as int]@ == all[i as int]);
                let word = string_of(&text::ascii_lowered(&words[i]));
                proof {
                    text::lemma_string_views_push(out@, word);
                    assert(lowercase_all(all.take(i + 1)) =~= lowercase_all(
                        all.take(i as int),
                    ).push(word@));
                }
                out.push(word);
            }
            assert(all.take(words.len() as int) =~= all);
        },
        None => {
            push_filler(&mut out, "um");
            push_filler(&mut out, "umm");
            push_filler(&mut out, "uh");
            push_filler(&mut out, "uhm");
            push_filler(&mut out, "erm");
            push_filler(&mut out, "er");
            push_filler(&mut out, "hmm");
            assert(text::string_views(out@) =~= default_set());
        },
    }
    out
}

fn in_set(word: &Vec<char>, set: &Vec<String>) -> (r: bool)
    ensures
        r == text::string_views(set@).contains(word@),
{
    let ghost all = text::string_views(set@);
    for i in 0..set.len()
        invariant
            all == text::string_views(set@),
            forall|k: int| 0 <= k < i ==> #[trigger] all[k] != word@,
    {
        if text::equals(word, set[i].as_str()) {
            assert(all[i as int] == word@);
            return true;
        }
    }
    false
}

fn token_is_filler(token: &Vec<char>, set: &Vec<String>) -> (r: bool)
    ensures
        r == filler(token@, text::string_views(set@)),
{
    let word = text::ascii_lowered(&text::trimmed(token, Class::Symbol));
    word.len() > 0 && in_set(&word, set)
}

/// True if `tok` is a filler word: what is left of it without surrounding punctuation, in lower
/// case, is in the set.
pub fn is_filler(tok: &str, set: &Vec<String>) -> (r: bool)
    ensures
        r == filler(tok@, text::string_views(set@)),
{
    token_is_filler(&chars_of(tok), set)
}

fn uppercase_of(c: char) -> (r: Vec<char>)
    ensures
        r@ == unicode::uppercase(c),
        r@.len() > 0,
{
    let mut out: Vec<char> = Vec::new();
    if (c as u32) >= 0x80 {
        let upper = to_unicode_uppercase(c);
        return chars_of(upper.as_str());
    }
    if 'a' <= c && c <= 'z' {
        out.push(((c as u8) - 32) as char);
    } else {
        out.push(c);
    }
    assert(out@ =~= unicode::uppercase(c));
    out
}

/// Makes the first letter a capital and leaves everything else as it is. The text never gets
/// shorter.
pub fn capitalize_first(s: &str) -> (r: String)
    ensures
        r@ == capitalize(s@),
        r@.len() >= s@.len(),
{
    let s = chars_of(s);
    let mut out: Vec<char> = Vec::new();
    let mut done: bool = false;
    assert(out@ + capitalize(s@.skip(0)) =~= capitalize(s@)) by {
        assert(s@.skip(0) =~= s@);
    }
    for i in 0..s.len()
        invariant
            out@.len() >= i,
            done ==> out@ + s@.skip(i as int) == capitalize(s@),
            !done ==> out@ + capitalize(s@.skip(i as int)) == capitalize(s@),
    {
        let ghost rest = s@.skip(i as int);
        assert(rest.drop_first() =~= s@.skip(i + 1));
        assert(rest =~= seq![rest[0]] + rest.drop_first());
        let ghost start = out@;
        if !done && is_alphabetic(s[i]) {
            let upper = uppercase_of(s[i]);
            text::extend(&mut out, &upper);
            done = true;
            assert(out@ + s@.skip(i + 1) =~= start + capitalize(rest));
        } else {
            out.push(s[i]);
            if done {
                assert(out@ + s@.skip(i + 1) =~= start + rest);
            } else {
                assert(out@ + capitalize(s@.skip(i + 1)) =~= start + capitalize(rest));
            }
        }
    }
    assert(s@.skip(s.len() as int) =~= Seq::empty());
    assert(out@ + Seq::<char>::empty() =~= out@);
    string_of(&out)
}

fn keep_words(words: &Vec<Vec<char>>, set: &Vec<String>) -> (r: Vec<Vec<char>>)
    ensures
        text::views(r@) == keep(text::views(words@), text::string_views(set@)),
{
    let mut out: Vec<Vec<char>> = Vec::new();
    let ghost all = text::views(words@);
    let ghost fillers = text::string_views(set@);
    assert(text::views(out@) =~= keep(all.take(0), fillers));
    for i in 0..words.len()
        invariant
            all == text::views(words@),
            fillers == text::string_views(set@),
            text::views(out@) == keep(all.take(i as int), fillers),
    {
        assert(all.take(i + 1).drop_last() =~= all.take(i as int));
        assert(all.take(i + 1).last() == words@[i as int]@);
        if !token_is_filler(&words[i], set) {
            let word = text::slice(&words[i], 0, words[i].len());
            assert(word@ =~= words@[i as int]@);
            proof {
                text::lemma_views_push(out@, word);
            }
            out.push(word);
        }
    }
    assert(all.take(words.len() as int) =~= all);
    out
}

/// A list of words joins to nothing only where it is empty.
proof fn lemma_join_empty(list: Seq<Seq<char>>)
    requires
        forall|i: int| 0 <= i < list.len() ==> text::is_word(#[trigger] list[i]),
    ensures
        text::join(list).len() == 0 <==> list.len() == 0,
{
    if list.len() > 0 {
        assert(text::is_word(list[0]));
    }
}

/// What is kept are words of the transcript, and none of them is a filler.
proof fn lemma_keep(tokens: Seq<Seq<char>>, set: Seq<Seq<char>>)
    ensures
        keep(tokens, set).len() <= tokens.len(),
        forall|i: int|
            0 <= i < keep(tokens, set).len() ==> !filler(#[trigger] keep(tokens, set)[i], set)
                && tokens.contains(keep(tokens, set)[i]),
    decreases tokens.len(),
{
    if tokens.len() > 0 {
        let front = tokens.drop_last();
        lemma_keep(front, set);
        assert forall|i: int| 0 <= i < keep(tokens, set).len() implies !filler(
            #[trigger] keep(tokens, set)[i],
            set,
        ) && tokens.contains(keep(tokens, set)[i]) by {
            if i < keep(front, set).len() {
                let w = keep(front, set)[i];
                assert(front.contains(w));
                let k = choose|k: int| 0 <= k < front.len() && front[k] == w;
                assert(tokens[k] == w);
            } else {
                assert(tokens[tokens.len() - 1] == tokens.last());
            }
        }
    }
}

/// Strips filler words from a transcript and tidies the spacing and the capital that the
/// removal leaves behind. With no fillers configured the transcript is only trimmed. The result
/// is empty if the whole utterance was filler, and, while there are fillers, only then.
pub fn strip_fillers(text: &str, configured: Option<&str>) -> (r: String)
    ensures
        ({
            let set = filler_set(
                match configured {
                    Some(list) => Some(list@),
                    None => None,
                },
            );
            &&& r@ == stripped(text@, set)
            &&& set.len() > 0 ==> (r@.len() == 0 <==> keep(text::words(text@), set).len() == 0)
        }),
{
    let set = fillers(configured);
    let transcript = chars_of(text);
    if set.len() == 0 {
        return string_of(&text::trimmed(&transcript, Class::Whitespace));
    }
    let words = text::split_words(&transcript);
    let kept = keep_words(&words, &set);
    let joined = string_of(&text::join_pieces(&kept));
    let r = capitalize_first(joined.as_str());
    proof {
        let all = text::words(text@);
        let fillers = text::string_views(set@);
        lemma_keep(all, fillers);
        text::lemma_words_are_words(text@);
        assert forall|i: int| 0 <= i < keep(all, fillers).len() implies text::is_word(
            #[trigger] keep(all, fillers)[i],
        ) by {
            assert(all.contains(keep(all, fillers)[i]));
        }
        lemma_join_empty(keep(all, fillers));
    }
    r
}

proof fn lemma_keep_none(tokens: Seq<Seq<char>>, set: Seq<Seq<char>>)
    requires
        forall|i: int| 0 <= i < tokens.len() ==> filler(#[trigger] tokens[i], set),
    ensures
        keep(tokens, set).len() == 0,
    decreases tokens.len(),
{
    if tokens.len() > 0 {
        let front = tokens.drop_last();
        assert forall|i: int| 0 <= i < front.len() implies filler(#[trigger] front[i], set) by {
            assert(front[i] == tokens[i]);
        }
        lemma_keep_none(front, set);
        assert(filler(tokens[tokens.len() - 1], set));
    }
}

proof fn lemma_keep_all(tokens: Seq<Seq<char>>, set: Seq<Seq<char>>)
    requires
        forall|i: int| 0 <= i < tokens.len() ==> !filler(#[trigger] tokens[i], set),
    ensures
        keep(tokens, set) == tokens,
    decreases tokens.len(),
{
    if tokens.len() > 0 {
        let front = tokens.drop_last();
        assert forall|i: int| 0 <= i < front.len() implies !filler(#[trigger] front[i], set) by {
            assert(front[i] == tokens[i]);
        }
        lemma_keep_all(front, set);
        assert(!filler(tokens[tokens.len() - 1], set));
        assert(front.push(tokens.last()) =~= tokens);
    } else {
        assert(keep(tokens, set) =~= tokens);
    }
}

/// An utterance of fillers alone cleans to nothing.
pub proof fn law_pure_filler_is_empty(transcript: Seq<char>, set: Seq<Seq<char>>)
    requires
        set.len() > 0,
        forall|i: int|
            0 <= i < text::words(transcript).len() ==> filler(
                #[trigger] text::words(transcript)[i],
                set,
            ),
    ensures
        stripped(transcript, set) == Seq::<char>::empty(),
{
    lemma_keep_none(text::words(transcript), set);
}

/// An utterance without fillers keeps every word; only the spacing and the first letter change.
pub proof fn law_real_words_survive(transcript: Seq<char>, set: Seq<Seq<char>>)
    requires
        set.len() > 0,
        forall|i: int|
            0 <= i < text::words(transcript).len() ==> !filler(
                #[trigger] text::words(transcript)[i],
                set,
            ),
    ensures
        stripped(transcript, set) == capitalize(text::join(text::words(transcript))),
{
    lemma_keep_all(text::words(transcript), set);
}

/// The words of a transcript that are kept.
pub open spec fn kept_words(transcript: Seq<char>, set: Seq<Seq<char>>) -> Seq<Seq<char>> {
    keep(text::words(transcript), set)
}

proof fn lemma_kept_are_words(transcript: Seq<char>, set: Seq<Seq<char>>)
    ensures
        forall|i: int|
            0 <= i < kept_words(transcript, set).len() ==> text::is_word(
                #[trigger] kept_words(transcript, set)[i],
            ) && !filler(kept_words(transcript, set)[i], set),
{
    let all = text::words(transcript);
    lemma_keep(all, set);
    text::lemma_words_are_words(transcript);
    assert forall|i: int| 0 <= i < kept_words(transcript, set).len() implies text::is_word(
        #[trigger] kept_words(transcript, set)[i],
    ) && !filler(kept_words(transcript, set)[i], set) by {
        assert(all.contains(keep(all, set)[i]));
    }
}

/// The capital of `c` is text without white space that starts with a letter, which is its own
/// capital. Every ASCII letter is like that.
pub open spec fn steady(c: char) -> bool {
    unicode::ascii(c) || {
        let upper = unicode::uppercase(c);
        &&& upper.len() > 0
        &&& unicode::alphabetic(upper[0])
        &&& unicode::uppercase(upper[0]) == seq![upper[0]]
        &&& forall|i: int| 0 <= i < upper.len() ==> !unicode::whitespace(#[trigger] upper[i])
    }
}

/// The first letter of `s`, if it has one, is steady.
pub open spec fn steady_first(s: Seq<char>) -> bool
    decreases s.len(),
{
    s.len() > 0 ==> if unicode::alphabetic(s[0]) {
        steady(s[0])
    } else {
        steady_first(s.drop_first())
    }
}

/// The first letter of `s`, if it has one, is ASCII.
pub open spec fn ascii_first(s: Seq<char>) -> bool
    decreases s.len(),
{
    s.len() > 0 ==> if unicode::alphabetic(s[0]) {
        unicode::ascii(s[0])
    } else {
        ascii_first(s.drop_first())
    }
}

/// `s` has a letter.
pub open spec fn has_letter(s: Seq<char>) -> bool {
    exists|i: int| 0 <= i < s.len() && unicode::alphabetic(#[trigger] s[i])
}

/// `list[k]` is the first of the words with a letter in it.
pub open spec fn leads(list: Seq<Seq<char>>, k: int) -> bool {
    &&& 0 <= k < list.len()
    &&& has_letter(list[k])
    &&& forall|j: int| 0 <= j < k ==> !has_letter(#[trigger] list[j])
}

/// A capital makes no filler of the first word that has a letter. An ASCII capital never does.
pub open spec fn harmless(list: Seq<Seq<char>>, set: Seq<Seq<char>>) -> bool {
    forall|k: int|
        #[trigger] leads(list, k) ==> ascii_first(list[k]) || !filler(capitalize(list[k]), set)
}

/// The two texts agree up to the case of ASCII letters.
spec fn alike(a: Seq<char>, b: Seq<char>) -> bool {
    &&& a.len() == b.len()
    &&& forall|i: int|
        0 <= i < a.len() ==> unicode::lower(#[trigger] a[i]) == unicode::lower(b[i])
            && unicode::alphanumeric(a[i]) == unicode::alphanumeric(b[i])
            && unicode::whitespace(a[i]) == unicode::whitespace(b[i])
}

proof fn lemma_alike_trim_start(a: Seq<char>, b: Seq<char>)
    requires
        alike(a, b),
    ensures
        alike(text::trim_start(a, Class::Symbol), text::trim_start(b, Class::Symbol)),
    decreases a.len(),
{
    if a.len() > 0 && !unicode::alphanumeric(a[0]) {
        let x = a.drop_first();
        let y = b.drop_first();
        assert forall|i: int| 0 <= i < x.len() implies unicode::lower(#[trigger] x[i])
            == unicode::lower(y[i]) && unicode::alphanumeric(x[i]) == unicode::alphanumeric(y[i])
            && unicode::whitespace(x[i]) == unicode::whitespace(y[i]) by {
            assert(x[i] == a[i + 1]);
        }
        lemma_alike_trim_start(x, y);
    }
}

proof fn lemma_alike_trim_end(a: Seq<char>, b: Seq<char>)
    requires
        alike(a, b),
    ensures
        alike(text::trim_end(a, Class::Symbol), text::trim_end(b, Class::Symbol)),
    decreases a.len(),
{
    if a.len() > 0 {
        assert(unicode::alphanumeric(a[a.len() - 1]) == unicode::alphanumeric(b[a.len() - 1]));
        if !unicode::alphanumeric(a.last()) {
            let x = a.drop_last();
            let y = b.drop_last();
            assert forall|i: int| 0 <= i < x.len() implies unicode::lower(#[trigger] x[i])
                == unicode::lower(y[i]) && unicode::alphanumeric(x[i]) == unicode::alphanumeric(
                y[i],
            ) && unicode::whitespace(x[i]) == unicode::whitespace(y[i]) by {
                assert(x[i] == a[i]);
            }
            lemma_alike_trim_end(x, y);
        }
    }
}

proof fn lemma_alike_filler(a: Seq<char>, b: Seq<char>, set: Seq<Seq<char>>)
    requires
        alike(a, b),
    ensures
        filler(a, set) == filler(b, set),
{
    lemma_alike_trim_start(a, b);
    let x = text::trim_start(a, Class::Symbol);
    let y = text::trim_start(b, Class::Symbol);
    lemma_alike_trim_end(x, y);
    let u = text::trim_end(x, Class::Symbol);
    let v = text::trim_end(y, Class::Symbol);
    assert forall|i: int| 0 <= i < u.len() implies unicode::lower(u[i]) == unicode::lower(
        v[i],
    ) by {
        assert(unicode::lower(u[i]) == unicode::lower(v[i]));
    }
    assert(unicode::ascii_lowercase(u) =~= unicode::ascii_lowercase(v));
}

proof fn lemma_capitalize_alike(s: Seq<char>)
    requires
        ascii_first(s),
    ensures
        alike(s, capitalize(s)),
    decreases s.len(),
{
    if s.len() > 0 {
        let rest = s.drop_first();
        let c = capitalize(s);
        if unicode::alphabetic(s[0]) {
            assert(c.drop_first() =~= rest);
        } else {
            lemma_capitalize_alike(rest);
            assert(c.drop_first() =~= capitalize(rest));
        }
        assert forall|i: int| 0 <= i < s.len() implies unicode::lower(#[trigger] s[i])
            == unicode::lower(c[i]) && unicode::alphanumeric(s[i]) == unicode::alphanumeric(c[i])
            && unicode::whitespace(s[i]) == unicode::whitespace(c[i]) by {
            if i > 0 {
                assert(s[i] == rest[i - 1]);
                assert(c[i] == c.drop_first()[i - 1]);
            }
        }
    }
}

/// Capitalizing a second time changes nothing. Outside ASCII that rests on the capital of the
/// first letter being steady.
pub proof fn law_capitalizing_twice(s: Seq<char>)
    requires
        steady_first(s),
    ensures
        capitalize(capitalize(s)) == capitalize(s),
    decreases s.len(),
{
    if s.len() > 0 {
        let rest = s.drop_first();
        let c = capitalize(s);
        if unicode::alphabetic(s[0]) {
            let upper = unicode::uppercase(s[0]);
            assert(c[0] == upper[0]);
            assert(unicode::uppercase(upper[0]) =~= seq![upper[0]]);
            assert(seq![c[0]] + c.drop_first() =~= c);
        } else {
            law_capitalizing_twice(rest);
            assert(c.drop_first() =~= capitalize(rest));
        }
    }
}

proof fn lemma_capitalize_word(w: Seq<char>)
    requires
        steady_first(w),
        text::is_word(w),
    ensures
        text::is_word(capitalize(w)),
    decreases w.len(),
{
    let rest = w.drop_first();
    let c = capitalize(w);
    assert forall|k: int| 0 <= k < rest.len() implies !unicode::whitespace(#[trigger] rest[k]) by {
        assert(rest[k] == w[k + 1]);
    }
    if unicode::alphabetic(w[0]) {
        let upper = unicode::uppercase(w[0]);
        assert forall|k: int| 0 <= k < c.len() implies !unicode::whitespace(#[trigger] c[k]) by {
            if k < upper.len() {
                assert(c[k] == upper[k]);
            } else {
                assert(c[k] == rest[k - upper.len()]);
            }
        }
    } else if rest.len() > 0 {
        lemma_capitalize_word(rest);
        assert forall|k: int| 0 <= k < c.len() implies !unicode::whitespace(#[trigger] c[k]) by {
            if k > 0 {
                assert(c[k] == capitalize(rest)[k - 1]);
            } else {
                assert(c[0] == w[0]);
            }
        }
    } else {
        assert(c =~= w);
    }
}

proof fn lemma_letter_in_join(list: Seq<Seq<char>>, j: int)
    requires
        0 <= j < list.len(),
        has_letter(list[j]),
    ensures
        has_letter(text::join(list)),
    decreases list.len(),
{
    let whole = text::join(list);
    if list.len() > 1 {
        let front = list.drop_last();
        let head = text::join(front).push(' ');
        if j < front.len() {
            assert(front[j] == list[j]);
            lemma_letter_in_join(front, j);
            let f = text::join(front);
            let i = choose|i: int| 0 <= i < f.len() && unicode::alphabetic(#[trigger] f[i]);
            assert(whole[i] == f[i]);
        } else {
            let w = list[j];
            let i = choose|i: int| 0 <= i < w.len() && unicode::alphabetic(#[trigger] w[i]);
            assert(whole[head.len() + i] == w[i]);
        }
    }
}

proof fn lemma_steady_first_parts(a: Seq<char>, b: Seq<char>)
    requires
        steady_first(a + b),
    ensures
        steady_first(a),
        !has_letter(a) ==> steady_first(b),
    decreases a.len(),
{
    if a.len() == 0 {
        assert(a + b =~= b);
    } else {
        assert((a + b)[0] == a[0]);
        assert((a + b).drop_first() =~= a.drop_first() + b);
        if !unicode::alphabetic(a[0]) {
            lemma_steady_first_parts(a.drop_first(), b);
            if has_letter(a.drop_first()) {
                let i = choose|i: int|
                    0 <= i < a.drop_first().len() && unicode::alphabetic(
                        #[trigger] a.drop_first()[i],
                    );
                assert(unicode::alphabetic(a[i + 1]));
            }
        } else {
            assert(has_letter(a));
        }
    }
}

proof fn lemma_capitalize_parts(a: Seq<char>, b: Seq<char>)
    ensures
        capitalize(a + b) == if has_letter(a) {
            capitalize(a) + b
        } else {
            a + capitalize(b)
        },
    decreases a.len(),
{
    if a.len() == 0 {
        assert(a + b =~= b);
        assert(a + capitalize(b) =~= capitalize(b));
    } else {
        let rest = a.drop_first();
        assert((a + b)[0] == a[0]);
        assert((a + b).drop_first() =~= rest + b);
        if unicode::alphabetic(a[0]) {
            assert(has_letter(a));
            assert(capitalize(a + b) =~= capitalize(a) + b);
        } else {
            lemma_capitalize_parts(rest, b);
            if has_letter(rest) {
                let i = choose|i: int|
                    0 <= i < rest.len() && unicode::alphabetic(#[trigger] rest[i]);
                assert(unicode::alphabetic(a[i + 1]));
                assert(capitalize(a + b) =~= capitalize(a) + b);
            } else {
                if has_letter(a) {
                    let i = choose|i: int| 0 <= i < a.len() && unicode::alphabetic(#[trigger] a[i]);
                    assert(unicode::alphabetic(rest[i - 1]));
                }
                assert(capitalize(a + b) =~= a + capitalize(b));
            }
        }
    }
}

/// The list whose joint text is the capitalized joint text of `list`.
spec fn capitalize_list(list: Seq<Seq<char>>) -> Seq<Seq<char>>
    decreases list.len(),
{
    if list.len() == 0 {
        list
    } else if has_letter(text::join(list.drop_last())) {
        capitalize_list(list.drop_last()).push(list.last())
    } else {
        list.drop_last().push(capitalize(list.last()))
    }
}

/// A text without letters is left as it is.
pub proof fn law_without_letters_nothing_changes(s: Seq<char>)
    requires
        !has_letter(s),
    ensures
        capitalize(s) == s,
    decreases s.len(),
{
    if s.len() > 0 {
        let rest = s.drop_first();
        assert(!unicode::alphabetic(s[0]));
        if has_letter(rest) {
            let i = choose|i: int| 0 <= i < rest.len() && unicode::alphabetic(#[trigger] rest[i]);
            assert(unicode::alphabetic(s[i + 1]));
        }
        law_without_letters_nothing_changes(rest);
        assert(capitalize(s) =~= s);
    }
}

proof fn lemma_capitalize_join(list: Seq<Seq<char>>, set: Seq<Seq<char>>)
    requires
        steady_first(text::join(list)),
        harmless(list, set),
        forall|i: int|
            0 <= i < list.len() ==> text::is_word(#[trigger] list[i]) && !filler(list[i], set),
    ensures
        capitalize(text::join(list)) == text::join(capitalize_list(list)),
        capitalize_list(list).len() == list.len(),
        forall|i: int|
            0 <= i < list.len() ==> text::is_word(#[trigger] capitalize_list(list)[i]) && !filler(
                capitalize_list(list)[i],
                set,
            ),
    decreases list.len(),
{
    if list.len() > 0 {
        let front = list.drop_last();
        let w = list.last();
        let caps = capitalize_list(list);
        let a = if front.len() == 0 {
            Seq::empty()
        } else {
            text::join(front).push(' ')
        };
        assert(text::join(list) =~= a + w);
        assert(list[list.len() - 1] == w);
        assert forall|i: int| 0 <= i < front.len() implies text::is_word(#[trigger] front[i])
            && !filler(front[i], set) by {
            assert(front[i] == list[i]);
        }
        lemma_steady_first_parts(a, w);
        lemma_capitalize_parts(a, w);
        let space: Seq<char> = seq![' '];
        if front.len() > 0 {
            assert(a =~= text::join(front) + space);
            lemma_steady_first_parts(text::join(front), space);
            lemma_capitalize_parts(text::join(front), space);
            law_without_letters_nothing_changes(space);
            assert forall|k: int| #[trigger] leads(front, k) implies ascii_first(front[k])
                || !filler(capitalize(front[k]), set) by {
                assert forall|j: int| 0 <= j < k implies !has_letter(#[trigger] list[j]) by {
                    assert(list[j] == front[j]);
                }
                assert(front[k] == list[k]);
                assert(leads(list, k));
            }
            lemma_capitalize_join(front, set);
            if has_letter(text::join(front)) {
                let j = text::join(front);
                let i = choose|i: int| 0 <= i < j.len() && unicode::alphabetic(#[trigger] j[i]);
                assert(a[i] == j[i]);
                assert(has_letter(a));
            } else if has_letter(a) {
                let i = choose|i: int| 0 <= i < a.len() && unicode::alphabetic(#[trigger] a[i]);
                assert(i < text::join(front).len());
                assert(text::join(front)[i] == a[i]);
            }
        }
        assert(caps.last() == if has_letter(text::join(front)) {
            w
        } else {
            capitalize(w)
        });
        if has_letter(text::join(front)) {
            assert(caps.drop_last() =~= capitalize_list(front));
            assert(text::join(caps) =~= text::join(capitalize_list(front)).push(' ') + w);
            assert(capitalize(a) =~= text::join(capitalize_list(front)).push(' '));
        } else {
            assert(caps.drop_last() =~= front);
            assert(!has_letter(a));
            assert(text::join(caps) =~= a + capitalize(w));
            if has_letter(w) {
                assert forall|j: int| 0 <= j < front.len() implies !has_letter(
                    #[trigger] list[j],
                ) by {
                    if has_letter(list[j]) {
                        assert(front[j] == list[j]);
                        lemma_letter_in_join(front, j);
                    }
                }
                assert(leads(list, front.len() as int));
                if ascii_first(w) {
                    lemma_capitalize_alike(w);
                    lemma_alike_filler(w, capitalize(w), set);
                }
            } else {
                law_without_letters_nothing_changes(w);
            }
            lemma_capitalize_word(w);
            assert(text::is_word(capitalize(w)));
        }
        assert forall|i: int| 0 <= i < list.len() implies text::is_word(#[trigger] caps[i])
            && !filler(caps[i], set) by {
            if i < front.len() {
                if has_letter(text::join(front)) {
                    assert(caps[i] == capitalize_list(front)[i]);
                } else {
                    assert(caps[i] == front[i]);
                }
            } else {
                assert(caps[i] == caps.last());
            }
        }
    }
}

/// No word of a cleaned transcript is a filler, and there are as many as were kept, unless the
/// capital makes a filler of the first word.
pub proof fn law_no_filler_is_left(transcript: Seq<char>, set: Seq<Seq<char>>)
    requires
        set.len() > 0,
        steady_first(text::join(kept_words(transcript, set))),
        harmless(kept_words(transcript, set), set),
    ensures
        forall|i: int|
            0 <= i < text::words(stripped(transcript, set)).len() ==> !filler(
                #[trigger] text::words(stripped(transcript, set))[i],
                set,
            ),
        text::words(stripped(transcript, set)).len() == kept_words(transcript, set).len(),
{
    lemma_kept_are_words(transcript, set);
    let kept = kept_words(transcript, set);
    lemma_capitalize_join(kept, set);
    text::lemma_words_of_join(capitalize_list(kept));
}

/// Cleaning a cleaned transcript changes nothing, unless the capital makes a filler of the first
/// word.
pub proof fn law_cleaning_twice(transcript: Seq<char>, set: Seq<Seq<char>>)
    requires
        set.len() > 0,
        steady_first(text::join(kept_words(transcript, set))),
        harmless(kept_words(transcript, set), set),
    ensures
        stripped(stripped(transcript, set), set) == stripped(transcript, set),
{
    lemma_kept_are_words(transcript, set);
    let kept = kept_words(transcript, set);
    lemma_capitalize_join(kept, set);
    text::lemma_words_of_join(capitalize_list(kept));
    lemma_keep_all(capitalize_list(kept), set);
    law_capitalizing_twice(text::join(kept));
}

/// Exactly the fillers go: what is kept are all the words that are none, in their order, and the
/// cleaned transcript is those words with single spaces between them and a leading capital.
pub proof fn law_only_fillers_go(transcript: Seq<char>, set: Seq<Seq<char>>)
    requires
        set.len() > 0,
    ensures
        kept_words(transcript, set) == text::words(transcript).filter(
            |w: Seq<char>| !filler(w, set),
        ),
        stripped(transcript, set) == capitalize(text::join(kept_words(transcript, set))),
{
    lemma_keep_is_filter(text::words(transcript), set);
}

proof fn lemma_keep_is_filter(tokens: Seq<Seq<char>>, set: Seq<Seq<char>>)
    ensures
        keep(tokens, set) == tokens.filter(|w: Seq<char>| !filler(w, set)),
    decreases tokens.len(),
{
    reveal(Seq::filter);
    if tokens.len() > 0 {
        lemma_keep_is_filter(tokens.drop_last(), set);
    }
}

/// The capital goes to the first letter, which may become several characters; what stands before
/// and behind it is left as it is.
pub proof fn law_first_letter_gets_the_capital(before: Seq<char>, c: char, behind: Seq<char>)
    requires
        !has_letter(before),
        unicode::alphabetic(c),
    ensures
        capitalize(before + seq![c] + behind) == before + unicode::uppercase(c) + behind,
{
    let rest = seq![c] + behind;
    assert(before + seq![c] + behind =~= before + rest);
    lemma_capitalize_parts(before, rest);
    assert(rest.drop_first() =~= behind);
    assert(before + capitalize(rest) =~= before + unicode::uppercase(c) + behind);
}

proof fn lemma_keep_parts(p: Seq<Seq<char>>, q: Seq<Seq<char>>, set: Seq<Seq<char>>)
    ensures
        keep(p + q, set) == keep(p, set) + keep(q, set),
    decreases q.len(),
{
    if q.len() == 0 {
        assert(p + q =~= p);
        assert(keep(p, set) + keep(q, set) =~= keep(p, set));
    } else {
        lemma_keep_parts(p, q.drop_last(), set);
        assert((p + q).drop_last() =~= p + q.drop_last());
        assert(keep(p + q, set) =~= keep(p, set) + keep(q, set));
    }
}

/// A filler between two texts changes nothing: the transcript cleans to what it would have been
/// without it.
pub proof fn law_inserted_filler_changes_nothing(
    a: Seq<char>,
    f: Seq<char>,
    b: Seq<char>,
    set: Seq<Seq<char>>,
)
    requires
        filler(f, set),
        forall|k: int| 0 <= k < f.len() ==> !unicode::whitespace(#[trigger] f[k]),
    ensures
        stripped(a.push(' ') + f + seq![' '] + b, set) == stripped(a.push(' ') + b, set),
{
    assert(f.len() > 0);
    assert(text::is_word(f));
    let one = seq![f];
    text::lemma_words_of_join(one);
    assert(text::words(f) == one);
    let space: Seq<char> = seq![' '];
    let tail = f.push(' ') + b;
    assert(a.push(' ') + f + space + b =~= a.push(' ') + tail);
    text::lemma_words_parts(a, ' ', tail);
    text::lemma_words_parts(f, ' ', b);
    text::lemma_words_parts(a, ' ', b);
    let left = text::words(a);
    let right = text::words(b);
    lemma_keep_parts(left, one + right, set);
    lemma_keep_parts(one, right, set);
    lemma_keep_parts(left, right, set);
    assert(one.last() == f);
    assert(keep(one, set) =~= Seq::empty()) by {
        assert(one.drop_last() =~= Seq::empty());
        assert(keep(one.drop_last(), set) =~= Seq::empty());
    }
    assert(keep(left + (one + right), set) =~= keep(left + right, set));
}

/// A filler is recognized in any ASCII case and with any punctuation around it.
pub proof fn law_fillers_in_any_guise(
    before: Seq<char>,
    word: Seq<char>,
    behind: Seq<char>,
    set: Seq<Seq<char>>,
)
    requires
        forall|i: int| 0 <= i < before.len() ==> !unicode::alphanumeric(#[trigger] before[i]),
        forall|i: int| 0 <= i < behind.len() ==> !unicode::alphanumeric(#[trigger] behind[i]),
        word.len() > 0,
        unicode::alphanumeric(word[0]),
        unicode::alphanumeric(word.last()),
        set.contains(unicode::ascii_lowercase(word)),
    ensures
        filler(before + word + behind, set),
{
    text::lemma_trim_parts(before, word, behind, Class::Symbol);
}

proof fn lemma_default_letters(word: Seq<char>)
    requires
        default_set().contains(unicode::ascii_lowercase(word)),
    ensures
        word.len() > 0,
        forall|k: int| 0 <= k < word.len() ==> unicode::ascii_letter(#[trigger] word[k]),
{
    reveal_strlit("um");
    reveal_strlit("umm");
    reveal_strlit("uh");
    reveal_strlit("uhm");
    reveal_strlit("erm");
    reveal_strlit("er");
    reveal_strlit("hmm");
    let small = unicode::ascii_lowercase(word);
    let set = default_set();
    let j = choose|j: int| 0 <= j < set.len() && set[j] == small;
    assert(small == set[j]);
    assert(small.len() == word.len());
    assert forall|k: int| 0 <= k < word.len() implies unicode::ascii_letter(
        #[trigger] word[k],
    ) by {
        assert(small[k] == unicode::lower(word[k]));
        assert('a' <= small[k] <= 'z');
    }
}

/// With the default fillers: any of them, in any case and with any punctuation around it, put
/// between two texts, changes nothing.
pub proof fn law_default_fillers_change_nothing(
    a: Seq<char>,
    before: Seq<char>,
    word: Seq<char>,
    behind: Seq<char>,
    b: Seq<char>,
)
    requires
        default_set().contains(unicode::ascii_lowercase(word)),
        forall|i: int|
            0 <= i < before.len() ==> !unicode::alphanumeric(#[trigger] before[i])
                && !unicode::whitespace(before[i]),
        forall|i: int|
            0 <= i < behind.len() ==> !unicode::alphanumeric(#[trigger] behind[i])
                && !unicode::whitespace(behind[i]),
    ensures
        ({
            let f = before + word + behind;
            stripped(a.push(' ') + f + seq![' '] + b, filler_set(None)) == stripped(
                a.push(' ') + b,
                filler_set(None),
            )
        }),
{
    let f = before + word + behind;
    lemma_default_letters(word);
    assert(unicode::ascii_letter(word[word.len() - 1]));
    law_fillers_in_any_guise(before, word, behind, default_set());
    assert forall|k: int| 0 <= k < f.len() implies !unicode::whitespace(#[trigger] f[k]) by {
        if k < before.len() {
            assert(f[k] == before[k]);
        } else if k < before.len() + word.len() {
            assert(f[k] == word[k - before.len()]);
        } else {
            assert(f[k] == behind[k - before.len() - word.len()]);
        }
    }
    law_inserted_filler_changes_nothing(a, f, b, default_set());
}

proof fn lemma_ascii_is_steady(s: Seq<char>)
    requires
        ascii_first(s),
    ensures
        steady_first(s),
    decreases s.len(),
{
    if s.len() > 0 && !unicode::alphabetic(s[0]) {
        lemma_ascii_is_steady(s.drop_first());
    }
}

proof fn lemma_ascii_first_parts(a: Seq<char>, b: Seq<char>)
    requires
        ascii_first(a + b),
    ensures
        ascii_first(a),
        !has_letter(a) ==> ascii_first(b),
    decreases a.len(),
{
    if a.len() == 0 {
        assert(a + b =~= b);
    } else {
        let rest = a.drop_first();
        assert((a + b)[0] == a[0]);
        assert((a + b).drop_first() =~= rest + b);
        if unicode::alphabetic(a[0]) {
            assert(has_letter(a));
        } else {
            lemma_ascii_first_parts(rest, b);
            if has_letter(rest) {
                let i = choose|i: int|
                    0 <= i < rest.len() && unicode::alphabetic(#[trigger] rest[i]);
                assert(unicode::alphabetic(a[i + 1]));
            }
        }
    }
}

proof fn lemma_no_letter_in_join(list: Seq<Seq<char>>)
    requires
        forall|j: int| 0 <= j < list.len() ==> !has_letter(#[trigger] list[j]),
    ensures
        !has_letter(text::join(list)),
    decreases list.len(),
{
    let whole = text::join(list);
    if list.len() > 1 {
        let front = list.drop_last();
        let w = list[list.len() - 1];
        assert forall|j: int| 0 <= j < front.len() implies !has_letter(#[trigger] front[j]) by {
            assert(front[j] == list[j]);
        }
        lemma_no_letter_in_join(front);
        let f = text::join(front);
        assert(!has_letter(w));
        assert forall|i: int| 0 <= i < whole.len() implies !unicode::alphabetic(
            #[trigger] whole[i],
        ) by {
            if i < f.len() {
                assert(whole[i] == f[i]);
            } else if i > f.len() {
                assert(whole[i] == w[i - f.len() - 1]);
            }
        }
    } else if list.len() == 1 {
        assert(!has_letter(list[0]));
    }
}

proof fn lemma_leading_word(list: Seq<Seq<char>>, k: int)
    requires
        leads(list, k),
        ascii_first(text::join(list)),
    ensures
        ascii_first(list[k]),
    decreases list.len(),
{
    if list.len() > 1 {
        let front = list.drop_last();
        let f = text::join(front);
        let space: Seq<char> = seq![' '];
        assert(f.push(' ') =~= f + space);
        lemma_ascii_first_parts(f + space, list.last());
        assert forall|j: int| 0 <= j < k && j < front.len() implies !has_letter(
            #[trigger] front[j],
        ) by {
            assert(front[j] == list[j]);
        }
        if k < front.len() {
            assert(front[k] == list[k]);
            lemma_ascii_first_parts(f, space);
            assert(leads(front, k));
            lemma_leading_word(front, k);
        } else {
            lemma_no_letter_in_join(front);
            assert forall|i: int| 0 <= i < (f + space).len() implies !unicode::alphabetic(
                #[trigger] (f + space)[i],
            ) by {
                if i < f.len() {
                    assert((f + space)[i] == f[i]);
                }
            }
        }
    }
}

/// Where the first letter that is kept is ASCII, cleaning a cleaned transcript changes nothing,
/// and no filler is left in it.
pub proof fn law_cleaning_twice_in_ascii(transcript: Seq<char>, set: Seq<Seq<char>>)
    requires
        set.len() > 0,
        ascii_first(text::join(kept_words(transcript, set))),
    ensures
        stripped(stripped(transcript, set), set) == stripped(transcript, set),
        forall|i: int|
            0 <= i < text::words(stripped(transcript, set)).len() ==> !filler(
                #[trigger] text::words(stripped(transcript, set))[i],
                set,
            ),
{
    let kept = kept_words(transcript, set);
    lemma_ascii_is_steady(text::join(kept));
    assert forall|k: int| #[trigger] leads(kept, k) implies ascii_first(kept[k]) || !filler(
        capitalize(kept[k]),
        set,
    ) by {
        lemma_leading_word(kept, k);
    }
    law_cleaning_twice(transcript, set);
    law_no_filler_is_left(transcript, set);
}

/// A token is a filler exactly if what it is without the symbols around it, with its ASCII
/// letters lowered, is in the set. Nothing else is one, symbols alone least of all.
pub proof fn law_only_listed_words_are_fillers(
    before: Seq<char>,
    word: Seq<char>,
    behind: Seq<char>,
    set: Seq<Seq<char>>,
)
    requires
        forall|i: int| 0 <= i < before.len() ==> !unicode::alphanumeric(#[trigger] before[i]),
        forall|i: int| 0 <= i < behind.len() ==> !unicode::alphanumeric(#[trigger] behind[i]),
        word.len() > 0 ==> unicode::alphanumeric(word[0]) && unicode::alphanumeric(word.last()),
    ensures
        filler(before + word + behind, set) <==> word.len() > 0 && set.contains(
            unicode::ascii_lowercase(word),
        ),
{
    let token = before + word + behind;
    if word.len() > 0 {
        text::lemma_trim_parts(before, word, behind, Class::Symbol);
    } else {
        assert forall|i: int| 0 <= i < token.len() implies Class::Symbol.has(
            #[trigger] token[i],
        ) by {
            if i < before.len() {
                assert(token[i] == before[i]);
            } else {
                assert(token[i] == behind[i - before.len()]);
            }
        }
        text::law_trim_takes_all(token, Class::Symbol);
    }
}

/// A word that is not in the set, whatever symbols are around it and whatever stands before and
/// behind it, is kept in its place.
pub proof fn law_other_words_are_kept(
    a: Seq<char>,
    before: Seq<char>,
    word: Seq<char>,
    behind: Seq<char>,
    b: Seq<char>,
    set: Seq<Seq<char>>,
)
    requires
        forall|i: int|
            0 <= i < before.len() ==> !unicode::alphanumeric(#[trigger] before[i])
                && !unicode::whitespace(before[i]),
        forall|i: int|
            0 <= i < behind.len() ==> !unicode::alphanumeric(#[trigger] behind[i])
                && !unicode::whitespace(behind[i]),
        forall|i: int| 0 <= i < word.len() ==> !unicode::whitespace(#[trigger] word[i]),
        word.len() > 0 ==> unicode::alphanumeric(word[0]) && unicode::alphanumeric(word.last()),
        before.len() + word.len() + behind.len() > 0,
        word.len() == 0 || !set.contains(unicode::ascii_lowercase(word)),
    ensures
        ({
            let token = before + word + behind;
            kept_words(a.push(' ') + token + seq![' '] + b, set) == kept_words(a, set).push(token)
                + kept_words(b, set)
        }),
{
    let token = before + word + behind;
    law_only_listed_words_are_fillers(before, word, behind, set);
    assert forall|k: int| 0 <= k < token.len() implies !unicode::whitespace(
        #[trigger] token[k],
    ) by {
        if k < before.len() {
            assert(token[k] == before[k]);
        } else if k < before.len() + word.len() {
            assert(token[k] == word[k - before.len()]);
        } else {
            assert(token[k] == behind[k - before.len() - word.len()]);
        }
    }
    text::law_words_of_a_word(token);
    let one = seq![token];
    let tail = token.push(' ') + b;
    let space: Seq<char> = seq![' '];
    assert(a.push(' ') + token + space + b =~= a.push(' ') + tail);
    text::lemma_words_parts(a, ' ', tail);
    text::lemma_words_parts(token, ' ', b);
    let left = text::words(a);
    let right = text::words(b);
    lemma_keep_parts(left, one + right, set);
    lemma_keep_parts(one, right, set);
    assert(keep(one, set) =~= one) by {
        assert(one.drop_last() =~= Seq::empty());
        assert(keep(one.drop_last(), set) =~= Seq::empty());
        assert(one.last() == token);
    }
    assert(keep(left, set) + (one + keep(right, set)) =~= keep(left, set).push(token) + keep(
        right,
        set,
    ));
}

/// Without fillers a transcript is only trimmed.
pub proof fn law_without_fillers_only_trimmed(p: Seq<char>, s: Seq<char>, q: Seq<char>)
    requires
        forall|i: int| 0 <= i < p.len() ==> unicode::whitespace(#[trigger] p[i]),
        forall|i: int| 0 <= i < q.len() ==> unicode::whitespace(#[trigger] q[i]),
        s.len() > 0 ==> !unicode::whitespace(s[0]) && !unicode::whitespace(s.last()),
    ensures
        stripped(p + s + q, Seq::empty()) == s,
{
    text::law_trim(p, s, q);
}

/// Whatever is not filler is said: a cleaned transcript is empty only where every word is one.
pub proof fn law_nothing_is_left_only_of_fillers(transcript: Seq<char>, set: Seq<Seq<char>>, i: int)
    requires
        set.len() > 0,
        0 <= i < text::words(transcript).len(),
        !filler(text::words(transcript)[i], set),
        steady_first(text::join(kept_words(transcript, set))),
    ensures
        stripped(transcript, set).len() > 0,
{
    let all = text::words(transcript);
    let kept = kept_words(transcript, set);
    lemma_kept_are_words(transcript, set);
    lemma_kept_not_empty(all, set, i);
    lemma_join_empty(kept);
    lemma_capitalize_not_empty(text::join(kept));
}

proof fn lemma_kept_not_empty(tokens: Seq<Seq<char>>, set: Seq<Seq<char>>, i: int)
    requires
        0 <= i < tokens.len(),
        !filler(tokens[i], set),
    ensures
        keep(tokens, set).len() > 0,
    decreases tokens.len(),
{
    if i < tokens.len() - 1 {
        lemma_kept_not_empty(tokens.drop_last(), set, i);
    }
}

proof fn lemma_capitalize_not_empty(s: Seq<char>)
    requires
        s.len() > 0,
        steady_first(s),
    ensures
        capitalize(s).len() > 0,
{
}

/// The configured list is cut at commas and at white space, its words are lowered, and empty
/// entries do not count.
pub proof fn law_configured_fillers(x: Seq<char>, c: char, y: Seq<char>)
    requires
        c == ',' || unicode::whitespace(c),
    ensures
        filler_set(Some(x.push(c) + y)) == filler_set(Some(x)) + filler_set(Some(y)),
        (forall|k: int| 0 <= k < x.len() ==> #[trigger] x[k] != ',' && !unicode::whitespace(x[k]))
            ==> filler_set(Some(x)) == if x.len() > 0 {
            seq![unicode::ascii_lowercase(x)]
        } else {
            Seq::empty()
        },
{
    let class = Class::ListSeparator;
    text::lemma_split_parts(x, c, y, class);
    let p = text::split(x, class);
    let q = text::split(y, class);
    text::lemma_non_empty_parts(p, q);
    assert(filler_set(Some(x.push(c) + y)) =~= filler_set(Some(x)) + filler_set(Some(y)));
    if forall|k: int| 0 <= k < x.len() ==> #[trigger] x[k] != ',' && !unicode::whitespace(x[k]) {
        assert forall|k: int| 0 <= k < x.len() implies !class.has(#[trigger] x[k]) by {
            assert(x[k] != ',');
        }
        text::law_plain_text_is_one_piece(x, class);
        let one = seq![x];
        let none = Seq::<Seq<char>>::empty();
        assert(one.drop_last() =~= none);
        assert(text::non_empty(none) =~= none);
        assert(text::non_empty(one) =~= if x.len() > 0 {
            one
        } else {
            none
        });
        assert(filler_set(Some(x)) =~= if x.len() > 0 {
            seq![unicode::ascii_lowercase(x)]
        } else {
            none
        });
    }
}

/// Where nothing is configured, exactly these are fillers.
pub proof fn law_default_fillers(w: Seq<char>)
    ensures
        filler_set(None).contains(w) <==> w == "um"@ || w == "umm"@ || w == "uh"@ || w == "uhm"@
            || w == "erm"@ || w == "er"@ || w == "hmm"@,
{
    let set = filler_set(None);
    assert(set[0] == "um"@);
    assert(set[1] == "umm"@);
    assert(set[2] == "uh"@);
    assert(set[3] == "uhm"@);
    assert(set[4] == "erm"@);
    assert(set[5] == "er"@);
    assert(set[6] == "hmm"@);
}

} // verus!
