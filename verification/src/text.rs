//! Cutting text apart and putting it together again.

use vstd::prelude::*;

use crate::unicode;
use crate::unicode::{is_alphanumeric, is_whitespace, to_lower, to_unicode_lowercase};

verus! {

/// A set of characters at which text is split or trimmed.
#[derive(Clone, Copy)]
pub enum Class {
    /// White space.
    Whitespace,
    /// White space or a comma.
    ListSeparator,
    /// Neither a letter nor a number.
    Symbol,
    /// One character.
    Is(char),
}

impl Class {
    /// `c` is in this class.
    pub open spec fn has(self, c: char) -> bool {
        match self {
            Class::Whitespace => unicode::whitespace(c),
            Class::ListSeparator => unicode::whitespace(c) || c == ',',
            Class::Symbol => !unicode::alphanumeric(c),
            Class::Is(d) => c == d,
        }
    }

    pub fn contains(self, c: char) -> (r: bool)
        ensures
            r == self.has(c),
    {
        match self {
            Class::Whitespace => is_whitespace(c),
            Class::ListSeparator => is_whitespace(c) || c == ',',
            Class::Symbol => !is_alphanumeric(c),
            Class::Is(d) => c == d,
        }
    }
}

/// The pieces of `s` between the characters of a class, empty ones included.
pub open spec fn split(s: Seq<char>, class: Class) -> Seq<Seq<char>>
    decreases s.len(),
{
    if s.len() == 0 {
        seq![Seq::empty()]
    } else {
        let before = split(s.drop_last(), class);
        if class.has(s.last()) {
            before.push(Seq::empty())
        } else {
            before.drop_last().push(before.last().push(s.last()))
        }
    }
}

/// The members of `pieces` that are not empty, in order.
pub open spec fn non_empty(pieces: Seq<Seq<char>>) -> Seq<Seq<char>>
    decreases pieces.len(),
{
    if pieces.len() == 0 {
        Seq::empty()
    } else {
        let before = non_empty(pieces.drop_last());
        if pieces.last().len() == 0 {
            before
        } else {
            before.push(pieces.last())
        }
    }
}

/// The words of `s`: its longest runs without white space.
pub open spec fn words(s: Seq<char>) -> Seq<Seq<char>> {
    non_empty(split(s, Class::Whitespace))
}

/// `pieces` one after the other, with a space between neighbours.
pub open spec fn join(pieces: Seq<Seq<char>>) -> Seq<char>
    decreases pieces.len(),
{
    if pieces.len() == 0 {
        Seq::empty()
    } else if pieces.len() == 1 {
        pieces[0]
    } else {
        join(pieces.drop_last()).push(' ') + pieces.last()
    }
}

/// `s` without the characters of a class at its front.
pub open spec fn trim_start(s: Seq<char>, class: Class) -> Seq<char>
    decreases s.len(),
{
    if s.len() > 0 && class.has(s[0]) {
        trim_start(s.drop_first(), class)
    } else {
        s
    }
}

/// `s` without the characters of a class at its end.
pub open spec fn trim_end(s: Seq<char>, class: Class) -> Seq<char>
    decreases s.len(),
{
    if s.len() > 0 && class.has(s.last()) {
        trim_end(s.drop_last(), class)
    } else {
        s
    }
}

/// `s` without the characters of a class at either end.
pub open spec fn trim_class(s: Seq<char>, class: Class) -> Seq<char> {
    trim_end(trim_start(s, class), class)
}

/// `s` without white space at either end.
pub open spec fn trim(s: Seq<char>) -> Seq<char> {
    trim_class(s, Class::Whitespace)
}

/// `part` occurs in `s` at `at`.
pub open spec fn occurs_at(s: Seq<char>, part: Seq<char>, at: int) -> bool {
    0 <= at && at + part.len() <= s.len() && s.subrange(at, at + part.len()) == part
}

/// `part` occurs somewhere in `s`.
pub open spec fn contains(s: Seq<char>, part: Seq<char>) -> bool {
    exists|at: int| occurs_at(s, part, at)
}

/// How many characters of `s` come before the first `c`, or all of them.
pub open spec fn before(s: Seq<char>, c: char) -> nat
    decreases s.len(),
{
    if s.len() == 0 || s[0] == c {
        0
    } else {
        1 + before(s.drop_first(), c)
    }
}

/// The text before and after the first `c`, where there is one.
pub open spec fn split_once(s: Seq<char>, c: char) -> Option<(Seq<char>, Seq<char>)> {
    let n = before(s, c) as int;
    if n < s.len() {
        Some((s.take(n), s.skip(n + 1)))
    } else {
        None
    }
}

/// What a list of character vectors holds.
pub open spec fn views(v: Seq<Vec<char>>) -> Seq<Seq<char>> {
    v.map_values(|w: Vec<char>| w@)
}

/// What a list of strings holds.
pub open spec fn string_views(v: Seq<String>) -> Seq<Seq<char>> {
    v.map_values(|w: String| w@)
}

/// `String::push`: appends one character.
pub assume_specification[ String::push ](s: &mut String, c: char)
    ensures
        final(s)@ == old(s)@.push(c),
;

/// The characters of `s`.
pub fn chars_of(s: &str) -> (r: Vec<char>)
    ensures
        r@ == s@,
{
    let mut out: Vec<char> = Vec::new();
    for c in it: s.chars()
        invariant
            out@ == it.seq().take(it.index() as int),
            it.seq() == s@,
    {
        out.push(c);
    }
    out
}

/// The string of the characters of `s`.
pub fn string_of(s: &Vec<char>) -> (r: String)
    ensures
        r@ == s@,
{
    let mut out = String::new();
    for i in 0..s.len()
        invariant
            out@ == s@.take(i as int),
    {
        out.push(s[i]);
    }
    out
}

/// `views` of a longer list.
pub proof fn lemma_views_push(v: Seq<Vec<char>>, w: Vec<char>)
    ensures
        views(v.push(w)) == views(v).push(w@),
{
    assert(views(v.push(w)) =~= views(v).push(w@));
}

/// `string_views` of a longer list.
pub proof fn lemma_string_views_push(v: Seq<String>, w: String)
    ensures
        string_views(v.push(w)) == string_views(v).push(w@),
{
    assert(string_views(v.push(w)) =~= string_views(v).push(w@));
}

/// There is always at least one piece.
pub proof fn lemma_split_len(s: Seq<char>, class: Class)
    ensures
        split(s, class).len() > 0,
    decreases s.len(),
{
    if s.len() > 0 {
        lemma_split_len(s.drop_last(), class);
    }
}

/// `s` and the literal `t` are the same text.
pub fn equals(s: &Vec<char>, t: &str) -> (r: bool)
    ensures
        r == (s@ == t@),
{
    let other = chars_of(t);
    if s.len() != other.len() {
        return false;
    }
    for i in 0..s.len()
        invariant
            other@ == t@,
            s.len() == other.len(),
            forall|k: int| 0 <= k < i ==> s@[k] == other@[k],
    {
        if s[i] != other[i] {
            assert(s@[i as int] != t@[i as int]);
            return false;
        }
    }
    assert(s@ =~= t@);
    true
}

/// The part of `s` from `from` up to `to`.
pub fn slice(s: &Vec<char>, from: usize, to: usize) -> (r: Vec<char>)
    requires
        from <= to <= s.len(),
    ensures
        r@ == s@.subrange(from as int, to as int),
{
    let mut out: Vec<char> = Vec::new();
    for i in from..to
        invariant
            from <= to <= s.len(),
            out@ == s@.subrange(from as int, i as int),
    {
        out.push(s[i]);
        assert(s@.subrange(from as int, i + 1) =~= s@.subrange(from as int, i as int).push(
            s@[i as int],
        ));
    }
    out
}

/// Appends `piece` to `out`.
pub fn extend(out: &mut Vec<char>, piece: &Vec<char>)
    ensures
        final(out)@ == old(out)@ + piece@,
{
    let ghost start = out@;
    for i in 0..piece.len()
        invariant
            out@ == start + piece@.take(i as int),
    {
        out.push(piece[i]);
        assert(piece@.take(i + 1) =~= piece@.take(i as int).push(piece@[i as int]));
    }
    assert(piece@.take(piece.len() as int) =~= piece@);
}

/// The pieces of `s` between the characters of a class.
pub fn split_at(s: &Vec<char>, class: Class) -> (r: Vec<Vec<char>>)
    ensures
        views(r@) == split(s@, class),
{
    let mut done: Vec<Vec<char>> = Vec::new();
    let mut piece: Vec<char> = Vec::new();
    assert(views(done@).push(piece@) =~= split(s@.take(0), class));
    for i in 0..s.len()
        invariant
            views(done@).push(piece@) == split(s@.take(i as int), class),
    {
        proof {
            assert(s@.take(i + 1).drop_last() =~= s@.take(i as int));
            assert(s@.take(i + 1).last() == s@[i as int]);
        }
        let ghost before = split(s@.take(i as int), class);
        assert(before.drop_last() =~= views(done@));
        if class.contains(s[i]) {
            proof {
                lemma_views_push(done@, piece);
            }
            done.push(piece);
            piece = Vec::new();
            assert(piece@ =~= Seq::empty());
        } else {
            piece.push(s[i]);
        }
    }
    assert(s@.take(s.len() as int) =~= s@);
    proof {
        lemma_views_push(done@, piece);
    }
    done.push(piece);
    done
}

/// The pieces of `s` between the characters of a class that are not empty.
pub fn split_non_empty(s: &Vec<char>, class: Class) -> (r: Vec<Vec<char>>)
    ensures
        views(r@) == non_empty(split(s@, class)),
{
    let pieces = split_at(s, class);
    let mut out: Vec<Vec<char>> = Vec::new();
    assert(views(out@) =~= non_empty(views(pieces@).take(0)));
    for i in 0..pieces.len()
        invariant
            views(out@) == non_empty(views(pieces@).take(i as int)),
    {
        proof {
            assert(views(pieces@).take(i + 1).drop_last() =~= views(pieces@).take(i as int));
            assert(views(pieces@).take(i + 1).last() == pieces@[i as int]@);
        }
        if pieces[i].len() > 0 {
            let piece = slice(&pieces[i], 0, pieces[i].len());
            assert(piece@ =~= pieces@[i as int]@);
            proof {
                lemma_views_push(out@, piece);
            }
            out.push(piece);
        }
    }
    assert(views(pieces@).take(pieces.len() as int) =~= views(pieces@));
    out
}

/// The words of `s`.
pub fn split_words(s: &Vec<char>) -> (r: Vec<Vec<char>>)
    ensures
        views(r@) == words(s@),
{
    split_non_empty(s, Class::Whitespace)
}

/// `pieces` joined by spaces.
pub fn join_pieces(pieces: &Vec<Vec<char>>) -> (r: Vec<char>)
    ensures
        r@ == join(views(pieces@)),
{
    let mut out: Vec<char> = Vec::new();
    assert(out@ =~= join(views(pieces@).take(0)));
    for i in 0..pieces.len()
        invariant
            out@ == join(views(pieces@).take(i as int)),
    {
        let ghost upto = views(pieces@).take(i + 1);
        assert(upto.drop_last() =~= views(pieces@).take(i as int));
        if i > 0 {
            out.push(' ');
        }
        extend(&mut out, &pieces[i]);
        assert(upto.last() == pieces@[i as int]@);
        if i == 0 {
            assert(out@ =~= upto[0]);
        }
    }
    assert(views(pieces@).take(pieces.len() as int) =~= views(pieces@));
    out
}

/// `s` without the characters of a class at either end.
pub fn trimmed(s: &Vec<char>, class: Class) -> (r: Vec<char>)
    ensures
        r@ == trim_class(s@, class),
{
    let mut from: usize = 0;
    assert(s@.skip(0) =~= s@);
    while from < s.len() && class.contains(s[from])
        invariant
            from <= s.len(),
            trim_start(s@, class) == trim_start(s@.skip(from as int), class),
        decreases s.len() - from,
    {
        assert(s@.skip(from as int).drop_first() =~= s@.skip(from + 1));
        from = from + 1;
    }
    let ghost rest = s@.skip(from as int);
    assert(trim_start(s@, class) == rest);
    let mut to: usize = s.len();
    assert(s@.subrange(from as int, to as int) =~= rest);
    while to > from && class.contains(s[to - 1])
        invariant
            from <= to <= s.len(),
            trim_end(rest, class) == trim_end(s@.subrange(from as int, to as int), class),
        decreases to,
    {
        assert(s@.subrange(from as int, to as int).drop_last() =~= s@.subrange(
            from as int,
            to - 1,
        ));
        to = to - 1;
    }
    slice(s, from, to)
}

/// `part` occurs in `s`.
pub fn includes(s: &Vec<char>, part: &Vec<char>) -> (r: bool)
    ensures
        r == contains(s@, part@),
{
    if part.len() > s.len() {
        return false;
    }
    if part.len() == 0 {
        assert(s@.subrange(0, 0) =~= part@);
        assert(occurs_at(s@, part@, 0));
        return true;
    }
    let last: usize = s.len() - part.len();
    let mut at: usize = 0;
    while at <= last
        invariant
            at <= last + 1,
            last == s.len() - part.len(),
            last < usize::MAX,
            forall|k: int| 0 <= k < at ==> !occurs_at(s@, part@, k),
        decreases last + 1 - at,
    {
        let mut n: usize = 0;
        while n < part.len() && s[at + n] == part[n]
            invariant
                n <= part.len(),
                at + part.len() <= s.len(),
                forall|k: int| 0 <= k < n ==> s@[at + k] == part@[k],
            decreases part.len() - n,
        {
            n = n + 1;
        }
        if n == part.len() {
            assert(s@.subrange(at as int, at + part.len()) =~= part@);
            assert(occurs_at(s@, part@, at as int));
            return true;
        }
        assert(!occurs_at(s@, part@, at as int)) by {
            assert(s@.subrange(at as int, at + part.len())[n as int] == s@[at + n]);
        }
        at = at + 1;
    }
    false
}

/// The text before and after the first `c`.
pub fn cut_once(s: &Vec<char>, c: char) -> (r: Option<(Vec<char>, Vec<char>)>)
    ensures
        match r {
            Some((a, b)) => split_once(s@, c) == Some((a@, b@)),
            None => split_once(s@, c) is None,
        },
{
    let mut n: usize = 0;
    assert(s@.skip(0) =~= s@);
    while n < s.len() && s[n] != c
        invariant
            n <= s.len(),
            before(s@, c) == n + before(s@.skip(n as int), c),
        decreases s.len() - n,
    {
        assert(s@.skip(n as int).drop_first() =~= s@.skip(n + 1));
        n = n + 1;
    }
    assert(before(s@, c) == n);
    if n < s.len() {
        let a = slice(s, 0, n);
        let b = slice(s, n + 1, s.len());
        assert(a@ =~= s@.take(n as int));
        assert(b@ =~= s@.skip(n + 1));
        Some((a, b))
    } else {
        None
    }
}

/// `s` with every ASCII capital made small.
pub fn ascii_lowered(s: &Vec<char>) -> (r: Vec<char>)
    ensures
        r@ == unicode::ascii_lowercase(s@),
{
    let mut out: Vec<char> = Vec::new();
    for i in 0..s.len()
        invariant
            out@ == unicode::ascii_lowercase(s@.take(i as int)),
    {
        out.push(to_lower(s[i]));
        assert(out@ =~= unicode::ascii_lowercase(s@.take(i + 1)));
    }
    assert(s@.take(s.len() as int) =~= s@);
    out
}

/// The lowercase of `s`.
pub fn lowered(s: &Vec<char>) -> (r: Vec<char>)
    ensures
        r@ == unicode::lowercase(s@),
{
    for i in 0..s.len()
        invariant
            forall|k: int| 0 <= k < i ==> unicode::ascii(#[trigger] s@[k]),
    {
        if (s[i] as u32) >= 0x80 {
            assert(!unicode::ascii(s@[i as int]));
            let whole = string_of(s);
            let small = to_unicode_lowercase(whole.as_str());
            return chars_of(small.as_str());
        }
    }
    assert(unicode::all_ascii(s@));
    ascii_lowered(s)
}

/// `w` is not empty and holds no white space.
pub open spec fn is_word(w: Seq<char>) -> bool {
    w.len() > 0 && forall|k: int| 0 <= k < w.len() ==> !unicode::whitespace(#[trigger] w[k])
}

/// No piece holds a character of the class that it was split at.
pub proof fn lemma_split_pieces(s: Seq<char>, class: Class, i: int, k: int)
    requires
        0 <= i < split(s, class).len(),
        0 <= k < split(s, class)[i].len(),
    ensures
        !class.has(split(s, class)[i][k]),
    decreases s.len(),
{
    if s.len() > 0 {
        let front = split(s.drop_last(), class);
        lemma_split_len(s.drop_last(), class);
        if i < front.len() && k < front[i].len() {
            lemma_split_pieces(s.drop_last(), class, i, k);
        }
    }
}

/// Every member of `non_empty(pieces)` is a member of `pieces` that is not empty.
pub proof fn lemma_non_empty_members(pieces: Seq<Seq<char>>, i: int)
    requires
        0 <= i < non_empty(pieces).len(),
    ensures
        non_empty(pieces)[i].len() > 0,
        exists|k: int| 0 <= k < pieces.len() && #[trigger] pieces[k] == non_empty(pieces)[i],
    decreases pieces.len(),
{
    let front = non_empty(pieces.drop_last());
    if i < front.len() {
        lemma_non_empty_members(pieces.drop_last(), i);
        let k = choose|k: int|
            0 <= k < pieces.len() - 1 && #[trigger] pieces.drop_last()[k] == front[i];
        assert(pieces[k] == non_empty(pieces)[i]);
    } else {
        assert(pieces[pieces.len() - 1] == non_empty(pieces)[i]);
    }
}

/// What `words` finds are words.
pub proof fn lemma_words_are_words(s: Seq<char>)
    ensures
        forall|i: int| 0 <= i < words(s).len() ==> is_word(#[trigger] words(s)[i]),
{
    let pieces = split(s, Class::Whitespace);
    assert forall|i: int| 0 <= i < words(s).len() implies is_word(#[trigger] words(s)[i]) by {
        lemma_non_empty_members(pieces, i);
        let k = choose|k: int| 0 <= k < pieces.len() && #[trigger] pieces[k] == words(s)[i];
        assert forall|j: int| 0 <= j < pieces[k].len() implies !unicode::whitespace(
            #[trigger] pieces[k][j],
        ) by {
            lemma_split_pieces(s, Class::Whitespace, k, j);
        }
    }
}

/// Text without separators only makes the last piece longer.
pub proof fn lemma_split_extend(s: Seq<char>, class: Class, w: Seq<char>)
    requires
        forall|k: int| 0 <= k < w.len() ==> !class.has(#[trigger] w[k]),
    ensures
        split(s + w, class) == split(s, class).drop_last().push(split(s, class).last() + w),
    decreases w.len(),
{
    lemma_split_len(s, class);
    if w.len() == 0 {
        assert(s + w =~= s);
        assert(split(s, class).last() + w =~= split(s, class).last());
        assert(split(s, class).drop_last().push(split(s, class).last()) =~= split(s, class));
    } else {
        lemma_split_extend(s, class, w.drop_last());
        assert((s + w).drop_last() =~= s + w.drop_last());
        assert((s + w).last() == w.last());
        assert(w.drop_last().push(w.last()) =~= w);
        let front = split(s + w.drop_last(), class);
        assert(front.drop_last() =~= split(s, class).drop_last());
        assert(front.last().push(w.last()) =~= split(s, class).last() + w);
    }
}

/// The words of joined words are those words.
pub proof fn lemma_words_of_join(list: Seq<Seq<char>>)
    requires
        forall|i: int| 0 <= i < list.len() ==> is_word(#[trigger] list[i]),
    ensures
        words(join(list)) == list,
    decreases list.len(),
{
    let class = Class::Whitespace;
    if list.len() == 0 {
        reveal_with_fuel(non_empty, 2);
        reveal_with_fuel(split, 2);
        assert(words(join(list)) =~= list);
    } else {
        let front = list.drop_last();
        let w = list.last();
        assert(is_word(w));
        assert forall|i: int| 0 <= i < front.len() implies is_word(#[trigger] front[i]) by {
            assert(front[i] == list[i]);
        }
        lemma_words_of_join(front);
        if list.len() == 1 {
            let none = Seq::<char>::empty();
            lemma_split_extend(none, class, w);
            assert(none + w =~= w);
            assert(split(w, class) =~= seq![w]);
            reveal_with_fuel(non_empty, 3);
            assert(seq![w].drop_last() =~= Seq::<Seq<char>>::empty());
            assert(words(w) =~= list);
        } else {
            let a = join(front).push(' ');
            assert(a.drop_last() =~= join(front));
            lemma_split_extend(a, class, w);
            let pieces = split(join(front), class);
            assert(split(a, class) =~= pieces.push(Seq::empty()));
            assert(Seq::<char>::empty() + w =~= w);
            assert(split(a + w, class) =~= pieces.push(w));
            assert(pieces.push(w).drop_last() =~= pieces);
            assert(words(a + w) =~= front.push(w));
            assert(front.push(w) =~= list);
        }
    }
}

/// A separator cuts a text in two: the pieces are those of either side.
pub proof fn lemma_split_parts(x: Seq<char>, c: char, y: Seq<char>, class: Class)
    requires
        class.has(c),
    ensures
        split(x.push(c) + y, class) == split(x, class) + split(y, class),
    decreases y.len(),
{
    let s = x.push(c) + y;
    let left = split(x, class);
    if y.len() == 0 {
        assert(s =~= x.push(c));
        assert(s.drop_last() =~= x);
        assert(split(s, class) =~= left + split(y, class));
    } else {
        let front = y.drop_last();
        lemma_split_parts(x, c, front, class);
        lemma_split_len(front, class);
        assert(s.drop_last() =~= x.push(c) + front);
        assert(s.last() == y.last());
        let right = split(front, class);
        assert((left + right).drop_last() =~= left + right.drop_last());
        assert((left + right).last() == right.last());
        assert(split(s, class) =~= left + split(y, class));
    }
}

/// What is left out of a list is left out of its parts.
pub proof fn lemma_non_empty_parts(p: Seq<Seq<char>>, q: Seq<Seq<char>>)
    ensures
        non_empty(p + q) == non_empty(p) + non_empty(q),
    decreases q.len(),
{
    if q.len() == 0 {
        assert(p + q =~= p);
        assert(non_empty(p) + non_empty(q) =~= non_empty(p));
    } else {
        lemma_non_empty_parts(p, q.drop_last());
        assert((p + q).drop_last() =~= p + q.drop_last());
        assert(non_empty(p + q) =~= non_empty(p) + non_empty(q));
    }
}

/// White space between two texts keeps their words apart.
pub proof fn lemma_words_parts(x: Seq<char>, c: char, y: Seq<char>)
    requires
        unicode::whitespace(c),
    ensures
        words(x.push(c) + y) == words(x) + words(y),
{
    lemma_split_parts(x, c, y, Class::Whitespace);
    lemma_non_empty_parts(split(x, Class::Whitespace), split(y, Class::Whitespace));
}

proof fn lemma_trim_start_parts(p: Seq<char>, s: Seq<char>, class: Class)
    requires
        forall|i: int| 0 <= i < p.len() ==> class.has(#[trigger] p[i]),
        s.len() > 0,
        !class.has(s[0]),
    ensures
        trim_start(p + s, class) == s,
    decreases p.len(),
{
    if p.len() == 0 {
        assert(p + s =~= s);
    } else {
        let rest = p.drop_first();
        assert forall|i: int| 0 <= i < rest.len() implies class.has(#[trigger] rest[i]) by {
            assert(rest[i] == p[i + 1]);
        }
        lemma_trim_start_parts(rest, s, class);
        assert((p + s)[0] == p[0]);
        assert((p + s).drop_first() =~= rest + s);
    }
}

proof fn lemma_trim_end_parts(s: Seq<char>, q: Seq<char>, class: Class)
    requires
        forall|i: int| 0 <= i < q.len() ==> class.has(#[trigger] q[i]),
        s.len() > 0,
        !class.has(s.last()),
    ensures
        trim_end(s + q, class) == s,
    decreases q.len(),
{
    if q.len() == 0 {
        assert(s + q =~= s);
    } else {
        let rest = q.drop_last();
        assert forall|i: int| 0 <= i < rest.len() implies class.has(#[trigger] rest[i]) by {
            assert(rest[i] == q[i]);
        }
        lemma_trim_end_parts(s, rest, class);
        assert((s + q).last() == q[q.len() - 1]);
        assert((s + q).drop_last() =~= s + rest);
    }
}

/// Trimming takes off exactly what is of the class around a text whose ends are not.
pub proof fn lemma_trim_parts(p: Seq<char>, s: Seq<char>, q: Seq<char>, class: Class)
    requires
        forall|i: int| 0 <= i < p.len() ==> class.has(#[trigger] p[i]),
        forall|i: int| 0 <= i < q.len() ==> class.has(#[trigger] q[i]),
        s.len() > 0,
        !class.has(s[0]),
        !class.has(s.last()),
    ensures
        trim_class(p + s + q, class) == s,
{
    assert(p + s + q =~= p + (s + q));
    lemma_trim_start_parts(p, s + q, class);
    lemma_trim_end_parts(s, q, class);
}

/// Which characters the classes have.
pub proof fn law_classes(c: char, d: char)
    ensures
        Class::Is(d).has(c) <==> c == d,
        Class::Whitespace.has(c) <==> unicode::whitespace(c),
        Class::ListSeparator.has(c) <==> c == ',' || unicode::whitespace(c),
        Class::Symbol.has(c) <==> !unicode::alphanumeric(c),
{
}

/// A text without separators is one piece, itself.
pub proof fn law_plain_text_is_one_piece(w: Seq<char>, class: Class)
    requires
        forall|k: int| 0 <= k < w.len() ==> !class.has(#[trigger] w[k]),
    ensures
        split(w, class) == seq![w],
{
    let none = Seq::<char>::empty();
    lemma_split_extend(none, class, w);
    assert(none + w =~= w);
    assert(split(w, class) =~= seq![w]);
}

/// Exactly the empty pieces are left out.
pub proof fn law_non_empty_is_a_filter(pieces: Seq<Seq<char>>)
    ensures
        non_empty(pieces) == pieces.filter(|p: Seq<char>| p.len() > 0),
    decreases pieces.len(),
{
    reveal(Seq::filter);
    if pieces.len() > 0 {
        law_non_empty_is_a_filter(pieces.drop_last());
    }
}

/// A word is its own only word, and nothing has no words.
pub proof fn law_words_of_a_word(w: Seq<char>)
    requires
        forall|k: int| 0 <= k < w.len() ==> !unicode::whitespace(#[trigger] w[k]),
    ensures
        w.len() > 0 ==> words(w) == seq![w],
        w.len() == 0 ==> words(w) == Seq::<Seq<char>>::empty(),
{
    law_plain_text_is_one_piece(w, Class::Whitespace);
    let one = seq![w];
    let none = Seq::<Seq<char>>::empty();
    assert(one.drop_last() =~= none);
    assert(non_empty(none) =~= none);
    assert(words(w) =~= if w.len() > 0 {
        one
    } else {
        none
    });
}

/// Joining puts one space between neighbours and nothing else.
pub proof fn law_join_parts(a: Seq<Seq<char>>, b: Seq<Seq<char>>, w: Seq<char>)
    ensures
        join(Seq::empty()) == Seq::<char>::empty(),
        join(seq![w]) == w,
        a.len() > 0 && b.len() > 0 ==> join(a + b) == join(a) + seq![' '] + join(b),
    decreases b.len(),
{
    if a.len() > 0 && b.len() > 0 {
        let front = b.drop_last();
        assert((a + b).drop_last() =~= a + front);
        assert((a + b).last() == b.last());
        if front.len() > 0 {
            law_join_parts(a, front, w);
            assert(join(a + b) =~= join(a) + seq![' '] + join(b));
        } else {
            assert(a + front =~= a);
            assert(b[0] == b.last());
            assert(join(a + b) =~= join(a) + seq![' '] + join(b));
        }
    }
}

/// A text that is all of the class is trimmed to nothing.
pub proof fn law_trim_takes_all(s: Seq<char>, class: Class)
    requires
        forall|i: int| 0 <= i < s.len() ==> class.has(#[trigger] s[i]),
    ensures
        trim_class(s, class) == Seq::<char>::empty(),
    decreases s.len(),
{
    if s.len() > 0 {
        let rest = s.drop_first();
        assert forall|i: int| 0 <= i < rest.len() implies class.has(#[trigger] rest[i]) by {
            assert(rest[i] == s[i + 1]);
        }
        law_trim_takes_all(rest, class);
        assert(class.has(s[0]));
    }
}

/// White space around a text is trimmed, all of it and nothing more.
pub proof fn law_trim(p: Seq<char>, s: Seq<char>, q: Seq<char>)
    requires
        forall|i: int| 0 <= i < p.len() ==> unicode::whitespace(#[trigger] p[i]),
        forall|i: int| 0 <= i < q.len() ==> unicode::whitespace(#[trigger] q[i]),
        s.len() > 0 ==> !unicode::whitespace(s[0]) && !unicode::whitespace(s.last()),
    ensures
        trim(p + s + q) == s,
{
    let class = Class::Whitespace;
    if s.len() > 0 {
        lemma_trim_parts(p, s, q, class);
    } else {
        let all = p + s + q;
        assert forall|i: int| 0 <= i < all.len() implies class.has(#[trigger] all[i]) by {
            if i < p.len() {
                assert(all[i] == p[i]);
            } else {
                assert(all[i] == q[i - p.len()]);
            }
        }
        law_trim_takes_all(all, class);
        assert(s =~= Seq::empty());
    }
}

/// A part occurs in a text exactly if some rest of the text starts with it; so it occurs
/// whatever stands around it.
pub proof fn law_contains(s: Seq<char>, part: Seq<char>, a: Seq<char>, b: Seq<char>)
    ensures
        contains(s, part) <==> exists|at: int|
            0 <= at <= s.len() && part.is_prefix_of(#[trigger] s.skip(at)),
        contains(a + part + b, part),
{
    if contains(s, part) {
        let at = choose|at: int| occurs_at(s, part, at);
        assert(s.skip(at).subrange(0, part.len() as int) =~= s.subrange(at, at + part.len()));
        assert(part.is_prefix_of(s.skip(at)));
    }
    if exists|at: int| 0 <= at <= s.len() && part.is_prefix_of(#[trigger] s.skip(at)) {
        let at = choose|at: int| 0 <= at <= s.len() && part.is_prefix_of(#[trigger] s.skip(at));
        assert(s.skip(at).subrange(0, part.len() as int) =~= s.subrange(at, at + part.len()));
        assert(occurs_at(s, part, at));
    }
    let t = a + part + b;
    assert(t.subrange(a.len() as int, a.len() as int + part.len()) =~= part);
    assert(occurs_at(t, part, a.len() as int));
}

proof fn lemma_before(a: Seq<char>, c: char, b: Seq<char>)
    requires
        forall|i: int| 0 <= i < a.len() ==> #[trigger] a[i] != c,
    ensures
        before(a, c) == a.len(),
        before(a + seq![c] + b, c) == a.len(),
    decreases a.len(),
{
    let s = a + seq![c] + b;
    if a.len() == 0 {
        assert(s[0] == c);
    } else {
        let rest = a.drop_first();
        assert forall|i: int| 0 <= i < rest.len() implies #[trigger] rest[i] != c by {
            assert(rest[i] == a[i + 1]);
        }
        lemma_before(rest, c, b);
        assert(s[0] == a[0]);
        assert(s.drop_first() =~= rest + seq![c] + b);
    }
}

/// A text is cut at the first separator, and not cut where there is none.
pub proof fn law_split_once(a: Seq<char>, c: char, b: Seq<char>)
    requires
        forall|i: int| 0 <= i < a.len() ==> #[trigger] a[i] != c,
    ensures
        split_once(a + seq![c] + b, c) == Some((a, b)),
        split_once(a, c) is None,
{
    let s = a + seq![c] + b;
    lemma_before(a, c, b);
    assert(s.take(a.len() as int) =~= a);
    assert(s.skip(a.len() as int + 1) =~= b);
}

/// A list holds what its members hold, in order.
pub proof fn law_lists_hold_their_members(v: Seq<Vec<char>>, w: Seq<String>, i: int)
    ensures
        views(v).len() == v.len(),
        0 <= i < v.len() ==> views(v)[i] == v[i]@,
        string_views(w).len() == w.len(),
        0 <= i < w.len() ==> string_views(w)[i] == w[i]@,
{
}

} // verus!
