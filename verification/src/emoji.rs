//! Replacing `:name:` words of a chat line by the emoji they stand for.

use vstd::prelude::*;
use crate::text::{
    chars_eq, chars_of, extend_chars, is_white_space, join_with, split_on, string_of, trim,
    trim_chars, trim_end, trim_start,
};

verus! {

/// The emoji that a whole word stands for, if it is one of the known
/// `:name:` words.
pub open spec fn emoji_for(word: Seq<char>) -> Option<Seq<char>> {
    if word == seq![':', 'h', 'a', 'p', 'p', 'y', ':'] {
        Some(seq!['\u{1F60A}'])
    } else if word == seq![':', 's', 'a', 'd', ':'] {
        Some(seq!['\u{1F622}'])
    } else if word == seq![':', 'a', 'n', 'g', 'r', 'y', ':'] {
        Some(seq!['\u{1F620}'])
    } else if word == seq![':', 'l', 'a', 'u', 'g', 'h', 'i', 'n', 'g', ':'] {
        Some(seq!['\u{1F602}'])
    } else if word == seq![':', 'h', 'e', 'a', 'r', 't', ':'] {
        Some(seq!['\u{2764}', '\u{FE0F}'])
    } else if word == seq![':', 'h', 'e', 'a', 'r', 't', 'b', 'r', 'o', 'k', 'e', 'n', ':'] {
        Some(seq!['\u{1F494}'])
    } else if word == seq![':', 't', 'h', 'i', 'n', 'k', 'i', 'n', 'g', ':'] {
        Some(seq!['\u{1F914}'])
    } else if word == seq![':', 's', 'l', 'e', 'e', 'p', 'i', 'n', 'g', ':'] {
        Some(seq!['\u{1F634}'])
    } else if word == seq![':', 'w', 'i', 'n', 'k', 'i', 'n', 'g', ':'] {
        Some(seq!['\u{1F609}'])
    } else if word == seq![':', 's', 'u', 'r', 'p', 'r', 'i', 's', 'e', 'd', ':'] {
        Some(seq!['\u{1F632}'])
    } else if word == seq![':', 's', 'k', 'u', 'l', 'l', ':'] {
        Some(seq!['\u{1F480}'])
    } else if word == seq![':', 's', 'p', 'a', 'r', 'k', 'l', 'e', ':'] {
        Some(seq!['\u{2728}'])
    } else {
        None
    }
}

/// A word as it is shown: its emoji if it has one, else the word itself.
pub open spec fn shown_word(word: Seq<char>) -> Seq<char> {
    match emoji_for(word) {
        Some(e) => e,
        None => word,
    }
}

/// Each word shown and followed by one space.
pub open spec fn shown_words(words: Seq<Seq<char>>) -> Seq<char>
    decreases words.len(),
{
    if words.len() == 0 {
        Seq::<char>::empty()
    } else {
        shown_words(words.drop_last()) + shown_word(words.last()) + seq![' ']
    }
}

/// A chat line with every space-separated `:name:` word replaced by its
/// emoji, trimmed of surrounding white space.
pub open spec fn with_emojis(line: Seq<char>) -> Seq<char> {
    trim(shown_words(split_on(line, ' ')))
}

/// The emoji of a word, if it has one.
fn lookup_emoji(word: &[char]) -> (e: Option<Vec<char>>)
    ensures
        match e {
            Some(v) => emoji_for(word@) == Some(v@),
            None => emoji_for(word@) is None,
        },
{
    if chars_eq(word, &[':', 'h', 'a', 'p', 'p', 'y', ':']) {
        Some(vec!['\u{1F60A}'])
    } else if chars_eq(word, &[':', 's', 'a', 'd', ':']) {
        Some(vec!['\u{1F622}'])
    } else if chars_eq(word, &[':', 'a', 'n', 'g', 'r', 'y', ':']) {
        Some(vec!['\u{1F620}'])
    } else if chars_eq(word, &[':', 'l', 'a', 'u', 'g', 'h', 'i', 'n', 'g', ':']) {
        Some(vec!['\u{1F602}'])
    } else if chars_eq(word, &[':', 'h', 'e', 'a', 'r', 't', ':']) {
        Some(vec!['\u{2764}', '\u{FE0F}'])
    } else if chars_eq(word, &[':', 'h', 'e', 'a', 'r', 't', 'b', 'r', 'o', 'k', 'e', 'n', ':']) {
        Some(vec!['\u{1F494}'])
    } else if chars_eq(word, &[':', 't', 'h', 'i', 'n', 'k', 'i', 'n', 'g', ':']) {
        Some(vec!['\u{1F914}'])
    } else if chars_eq(word, &[':', 's', 'l', 'e', 'e', 'p', 'i', 'n', 'g', ':']) {
        Some(vec!['\u{1F634}'])
    } else if chars_eq(word, &[':', 'w', 'i', 'n', 'k', 'i', 'n', 'g', ':']) {
        Some(vec!['\u{1F609}'])
    } else if chars_eq(word, &[':', 's', 'u', 'r', 'p', 'r', 'i', 's', 'e', 'd', ':']) {
        Some(vec!['\u{1F632}'])
    } else if chars_eq(word, &[':', 's', 'k', 'u', 'l', 'l', ':']) {
        Some(vec!['\u{1F480}'])
    } else if chars_eq(word, &[':', 's', 'p', 'a', 'r', 'k', 'l', 'e', ':']) {
        Some(vec!['\u{2728}'])
    } else {
        None
    }
}

/// Appends a word as it is shown, followed by one space.
fn push_shown_word(out: &mut Vec<char>, word: &[char])
    ensures
        final(out)@ == old(out)@ + shown_word(word@) + seq![' '],
{
    match lookup_emoji(word) {
        Some(e) => extend_chars(out, &e),
        None => extend_chars(out, word),
    }
    out.push(' ');
}

/// The characters of a chat line with its `:name:` words turned into emojis.
pub fn emoji_chars(line: &[char]) -> (r: Vec<char>)
    ensures
        r@ == with_emojis(line@),
{
    let mut out: Vec<char> = Vec::new();
    let mut word: Vec<char> = Vec::new();
    let mut i: usize = 0;
    while i < line.len()
        invariant
            i <= line@.len(),
            split_on(line@.take(i as int), ' ').len() >= 1,
            out@ == shown_words(split_on(line@.take(i as int), ' ').drop_last()),
            word@ == split_on(line@.take(i as int), ' ').last(),
        decreases line@.len() - i,
    {
        let ghost words = split_on(line@.take(i as int), ' ');
        let c = line[i];
        assert(line@.take(i + 1).drop_last() =~= line@.take(i as int));
        if c == ' ' {
            push_shown_word(&mut out, &word);
            word = Vec::new();
            proof {
                let next = split_on(line@.take(i + 1), ' ');
                assert(next == words.push(Seq::<char>::empty()));
                assert(next.drop_last() =~= words);
                assert(words == words.drop_last().push(words.last()));
            }
        } else {
            word.push(c);
            proof {
                let next = split_on(line@.take(i + 1), ' ');
                assert(next == words.update(words.len() - 1, words.last().push(c)));
                assert(next.drop_last() =~= words.drop_last());
            }
        }
        i = i + 1;
    }
    assert(line@.take(line@.len() as int) =~= line@);
    let ghost words = split_on(line@, ' ');
    push_shown_word(&mut out, &word);
    assert(words == words.drop_last().push(words.last()));
    trim_chars(&out)
}

/// A chat line with every space-separated `:name:` word replaced by its emoji
/// and the result trimmed of surrounding white space.
pub fn emoji_preprocessor(line: String) -> (r: String)
    ensures
        r@ == with_emojis(line@),
{
    let cs = chars_of(line.as_str());
    let out = emoji_chars(&cs);
    string_of(&out)
}

} // verus!

verus! {

proof fn lemma_trim_push_white_space(x: Seq<char>, w: char)
    requires
        is_white_space(w),
    ensures
        trim(x.push(w)) == trim(x),
    decreases x.len(),
{
    if x.len() == 0 {
        assert(x.push(w).drop_first() =~= Seq::<char>::empty());
        assert(trim_start(x.push(w)) == trim_start(Seq::<char>::empty()));
    } else if is_white_space(x[0]) {
        assert(x.push(w).drop_first() =~= x.drop_first().push(w));
        lemma_trim_push_white_space(x.drop_first(), w);
    } else {
        assert(trim_start(x.push(w)) == x.push(w));
        assert(x.push(w).drop_last() =~= x);
    }
}

/// A line none of whose space-separated words is an emoji name comes out
/// as the line itself, trimmed of surrounding white space.
pub proof fn lemma_plain_line_is_trimmed(line: Seq<char>)
    requires
        forall|k: int|
            0 <= k < split_on(line, ' ').len() ==> emoji_for(#[trigger] split_on(line, ' ')[k])
                is None,
    ensures
        with_emojis(line) == trim(line),
{
    let words = split_on(line, ' ');
    crate::text::lemma_split_join(line, ' ');
    crate::text::lemma_split_nonempty(line, ' ');
    lemma_shown_words_join(words);
    assert(words.map_values(|w: Seq<char>| shown_word(w)) =~= words);
    lemma_trim_push_white_space(join_with(words, ' '), ' ');
}

} // verus!

verus! {

/// No character of `w` is white space.
pub open spec fn no_white(w: Seq<char>) -> bool {
    forall|m: int| 0 <= m < w.len() ==> !is_white_space(#[trigger] w[m])
}

/// A word that stays as it is when shown: free of white space and no emoji name.
pub open spec fn plain_word(w: Seq<char>) -> bool {
    no_white(w) && emoji_for(w) is None
}

/// The words without their leading empty ones, keeping at least one.
spec fn strip_front(t: Seq<Seq<char>>) -> Seq<Seq<char>>
    decreases t.len(),
{
    if t.len() >= 2 && t[0].len() == 0 {
        strip_front(t.drop_first())
    } else {
        t
    }
}

/// The words without their trailing empty ones, keeping at least one.
spec fn strip_back(t: Seq<Seq<char>>) -> Seq<Seq<char>>
    decreases t.len(),
{
    if t.len() >= 2 && t.last().len() == 0 {
        strip_back(t.drop_last())
    } else {
        t
    }
}

proof fn lemma_split_no_white(s: Seq<char>)
    requires
        forall|i: int| 0 <= i < s.len() ==> #[trigger] s[i] == ' ' || !is_white_space(s[i]),
    ensures
        forall|k: int| 0 <= k < split_on(s, ' ').len() ==> no_white(#[trigger] split_on(s, ' ')[k]),
    decreases s.len(),
{
    if s.len() > 0 {
        let init = s.drop_last();
        assert forall|i: int| 0 <= i < init.len() implies #[trigger] init[i] == ' '
            || !is_white_space(init[i]) by {
            assert(init[i] == s[i]);
        }
        lemma_split_no_white(init);
        crate::text::lemma_split_nonempty(init, ' ');
        let p = split_on(init, ' ');
        let q = split_on(s, ' ');
        let c = s[s.len() - 1];
        assert(c == s.last());
        if c == ' ' {
            assert forall|k: int| 0 <= k < q.len() implies no_white(#[trigger] q[k]) by {
                if k < p.len() {
                    assert(q[k] == p[k]);
                } else {
                    assert(q[k] == Seq::<char>::empty());
                }
            }
        } else {
            assert(!is_white_space(c));
            assert forall|k: int| 0 <= k < q.len() implies no_white(#[trigger] q[k]) by {
                if k < p.len() - 1 {
                    assert(q[k] == p[k]);
                } else {
                    let w = p.last().push(c);
                    assert(q[k] == w);
                    assert(no_white(p[p.len() - 1]));
                    assert forall|m: int| 0 <= m < w.len() implies !is_white_space(
                        #[trigger] w[m],
                    ) by {
                        if m < p.last().len() {
                            assert(w[m] == p[p.len() - 1][m]);
                        }
                    }
                }
            }
        }
    }
}

proof fn lemma_shown_word_plain(w: Seq<char>)
    requires
        no_white(w),
    ensures
        plain_word(shown_word(w)),
        w.len() > 0 ==> shown_word(w).len() > 0,
{
    if emoji_for(w) is Some {
        let e = shown_word(w);
        assert(1 <= e.len() <= 2);
        assert(no_white(e));
        assert(emoji_for(e) is None);
    }
}

proof fn lemma_shown_words_join(words: Seq<Seq<char>>)
    requires
        words.len() >= 1,
    ensures
        shown_words(words) == join_with(words.map_values(|w: Seq<char>| shown_word(w)), ' ').push(
            ' ',
        ),
    decreases words.len(),
{
    let shown = words.map_values(|w: Seq<char>| shown_word(w));
    let init = words.drop_last();
    if words.len() == 1 {
        assert(init =~= Seq::<Seq<char>>::empty());
        assert(shown_words(words) =~= join_with(shown, ' ').push(' '));
    } else {
        lemma_shown_words_join(init);
        assert(shown.drop_last() =~= init.map_values(|w: Seq<char>| shown_word(w)));
        assert(shown.last() == shown_word(words.last()));
        assert(join_with(shown, ' ') == join_with(shown.drop_last(), ' ') + seq![' '] + shown.last());
        assert(shown_words(words) == shown_words(init) + shown_word(words.last()) + seq![' ']);
        assert(shown_words(words) =~= join_with(shown, ' ').push(' '));
    }
}

proof fn lemma_join_front(t: Seq<Seq<char>>)
    requires
        t.len() >= 2,
    ensures
        join_with(t, ' ') == t[0] + seq![' '] + join_with(t.drop_first(), ' '),
    decreases t.len(),
{
    let rest = t.drop_first();
    if t.len() == 2 {
        let init = t.drop_last();
        assert(init.len() == 1);
        assert(join_with(init, ' ') == init[0]);
        assert(init[0] == t[0]);
        assert(rest.len() == 1);
        assert(join_with(rest, ' ') == rest[0]);
        assert(rest[0] == t.last());
        assert(join_with(t, ' ') == join_with(init, ' ') + seq![' '] + t.last());
        assert(join_with(t, ' ') =~= t[0] + seq![' '] + join_with(rest, ' '));
    } else {
        let init = t.drop_last();
        lemma_join_front(init);
        assert(init[0] == t[0]);
        assert(rest.last() == t.last());
        assert(rest.drop_last() =~= init.drop_first());
        assert(join_with(t, ' ') == join_with(init, ' ') + seq![' '] + t.last());
        assert(join_with(rest, ' ') == join_with(rest.drop_last(), ' ') + seq![' '] + rest.last());
        assert(join_with(t, ' ') =~= t[0] + seq![' '] + join_with(rest, ' '));
    }
}

proof fn lemma_trim_start_join(t: Seq<Seq<char>>)
    requires
        t.len() >= 1,
        forall|k: int| 0 <= k < t.len() ==> no_white(#[trigger] t[k]),
    ensures
        trim_start(join_with(t, ' ')) == join_with(strip_front(t), ' '),
        1 <= strip_front(t).len() <= t.len(),
        strip_front(t) == t.skip(t.len() - strip_front(t).len()),
        strip_front(t).len() == 1 || strip_front(t)[0].len() > 0,
    decreases t.len(),
{
    let j = join_with(t, ' ');
    if t.len() >= 2 && t[0].len() == 0 {
        let rest = t.drop_first();
        lemma_join_front(t);
        assert forall|k: int| 0 <= k < rest.len() implies no_white(#[trigger] rest[k]) by {
            assert(rest[k] == t[k + 1]);
        }
        lemma_trim_start_join(rest);
        assert(j =~= seq![' '] + join_with(rest, ' '));
        assert(j.drop_first() =~= join_with(rest, ' '));
        assert(is_white_space(j[0]));
        let d = rest.len() - strip_front(rest).len();
        assert(rest.skip(d) =~= t.skip(d + 1));
    } else {
        assert(t.skip(0) =~= t);
        if t[0].len() > 0 {
            if t.len() >= 2 {
                lemma_join_front(t);
                assert(j[0] == t[0][0]);
            }
            assert(no_white(t[0]));
            assert(!is_white_space(j[0]));
        } else {
            assert(j.len() == 0);
        }
    }
}

proof fn lemma_trim_end_join(t: Seq<Seq<char>>)
    requires
        t.len() >= 1,
        forall|k: int| 0 <= k < t.len() ==> no_white(#[trigger] t[k]),
    ensures
        trim_end(join_with(t, ' ')) == join_with(strip_back(t), ' '),
        1 <= strip_back(t).len() <= t.len(),
        strip_back(t) == t.take(strip_back(t).len() as int),
    decreases t.len(),
{
    let j = join_with(t, ' ');
    if t.len() >= 2 && t.last().len() == 0 {
        let init = t.drop_last();
        assert forall|k: int| 0 <= k < init.len() implies no_white(#[trigger] init[k]) by {
            assert(init[k] == t[k]);
        }
        lemma_trim_end_join(init);
        assert(j =~= join_with(init, ' ').push(' '));
        assert(j.drop_last() =~= join_with(init, ' '));
        assert(is_white_space(j.last()));
        let n = strip_back(init).len() as int;
        assert(init.take(n) =~= t.take(n));
    } else {
        assert(t.take(t.len() as int) =~= t);
        let w = t[t.len() - 1];
        assert(w == t.last());
        if w.len() > 0 {
            if t.len() >= 2 {
                assert(j == join_with(t.drop_last(), ' ') + seq![' '] + w);
            }
            assert(j.last() == w[w.len() - 1]);
            assert(no_white(w));
            assert(!is_white_space(j.last()));
        } else {
            assert(j.len() == 0);
        }
    }
}

proof fn lemma_split_after(x: Seq<char>, y: Seq<char>)
    requires
        forall|m: int| 0 <= m < y.len() ==> #[trigger] y[m] != ' ',
    ensures
        split_on(x + seq![' '] + y, ' ') == split_on(x, ' ').push(y),
    decreases y.len(),
{
    let z = x + seq![' '] + y;
    if y.len() == 0 {
        assert(z.drop_last() =~= x);
        assert(y =~= Seq::<char>::empty());
    } else {
        let init = y.drop_last();
        assert forall|m: int| 0 <= m < init.len() implies #[trigger] init[m] != ' ' by {
            assert(init[m] == y[m]);
        }
        lemma_split_after(x, init);
        assert(z.drop_last() =~= x + seq![' '] + init);
        assert(z.last() == y[y.len() - 1]);
        assert(init.push(y.last()) =~= y);
        assert(split_on(z, ' ') =~= split_on(x, ' ').push(y));
    }
}

proof fn lemma_split_single(y: Seq<char>)
    requires
        forall|m: int| 0 <= m < y.len() ==> #[trigger] y[m] != ' ',
    ensures
        split_on(y, ' ') == seq![y],
    decreases y.len(),
{
    if y.len() == 0 {
        assert(y =~= Seq::<char>::empty());
    } else {
        let init = y.drop_last();
        assert forall|m: int| 0 <= m < init.len() implies #[trigger] init[m] != ' ' by {
            assert(init[m] == y[m]);
        }
        lemma_split_single(init);
        assert(y.last() == y[y.len() - 1]);
        assert(init.push(y.last()) =~= y);
        assert(split_on(y, ' ') =~= seq![y]);
    }
}

proof fn lemma_split_of_join(t: Seq<Seq<char>>)
    requires
        t.len() >= 1,
        forall|k: int| 0 <= k < t.len() ==> no_white(#[trigger] t[k]),
    ensures
        split_on(join_with(t, ' '), ' ') == t,
    decreases t.len(),
{
    let w = t[t.len() - 1];
    assert(w == t.last());
    assert(no_white(w));
    assert forall|m: int| 0 <= m < w.len() implies #[trigger] w[m] != ' ' by {
        assert(!is_white_space(w[m]));
    }
    if t.len() == 1 {
        lemma_split_single(w);
        assert(seq![w] =~= t);
    } else {
        let init = t.drop_last();
        assert forall|k: int| 0 <= k < init.len() implies no_white(#[trigger] init[k]) by {
            assert(init[k] == t[k]);
        }
        lemma_split_of_join(init);
        lemma_split_after(join_with(init, ' '), w);
        assert(init.push(w) =~= t);
    }
}

proof fn lemma_trim_start_shape(x: Seq<char>)
    ensures
        trim_start(x).len() == 0 || !is_white_space(trim_start(x)[0]),
    decreases x.len(),
{
    if x.len() > 0 && is_white_space(x[0]) {
        lemma_trim_start_shape(x.drop_first());
    }
}

proof fn lemma_trim_end_shape(x: Seq<char>)
    ensures
        trim_end(x).len() <= x.len(),
        trim_end(x) == x.take(trim_end(x).len() as int),
        trim_end(x).len() == 0 || !is_white_space(trim_end(x).last()),
    decreases x.len(),
{
    if x.len() > 0 && is_white_space(x.last()) {
        lemma_trim_end_shape(x.drop_last());
        assert(trim_end(x) == trim_end(x.drop_last()));
        let n = trim_end(x.drop_last()).len() as int;
        assert(x.drop_last().take(n) =~= x.take(n));
    } else {
        assert(x.take(x.len() as int) =~= x);
    }
}

proof fn lemma_trim_twice(x: Seq<char>)
    ensures
        trim(trim(x)) == trim(x),
{
    let y = trim_start(x);
    let z = trim_end(y);
    lemma_trim_start_shape(x);
    lemma_trim_end_shape(y);
    if z.len() > 0 {
        assert(z[0] == y.take(z.len() as int)[0]);
        assert(z[0] == y[0]);
        assert(trim_start(z) == z);
        assert(z.last() == z[z.len() - 1]);
        assert(trim_end(z) == z);
    } else {
        assert(trim_start(z) == z);
        assert(trim_end(z) == z);
    }
}

/// Turning the emoji names of a line into emojis a second time changes
/// nothing, for a line whose only white space is the space character.
pub proof fn lemma_emojis_idempotent(line: Seq<char>)
    requires
        forall|i: int| 0 <= i < line.len() ==> #[trigger] line[i] == ' ' || !is_white_space(line[i]),
    ensures
        with_emojis(with_emojis(line)) == with_emojis(line),
{
    let words = split_on(line, ' ');
    crate::text::lemma_split_nonempty(line, ' ');
    lemma_split_no_white(line);
    let shown = words.map_values(|w: Seq<char>| shown_word(w));
    assert forall|k: int| 0 <= k < shown.len() implies plain_word(#[trigger] shown[k]) by {
        assert(no_white(words[k]));
        lemma_shown_word_plain(words[k]);
    }
    lemma_shown_words_join(words);
    lemma_trim_push_white_space(join_with(shown, ' '), ' ');
    assert(with_emojis(line) == trim(join_with(shown, ' ')));
    lemma_trim_start_join(shown);
    let front = strip_front(shown);
    let d = shown.len() - front.len();
    assert forall|k: int| 0 <= k < front.len() implies plain_word(#[trigger] front[k]) by {
        assert(front[k] == shown[k + d]);
    }
    lemma_trim_end_join(front);
    let kept = strip_back(front);
    assert forall|k: int| 0 <= k < kept.len() implies plain_word(#[trigger] kept[k]) by {
        assert(kept[k] == front[k]);
    }
    let once = join_with(kept, ' ');
    assert(with_emojis(line) == once);
    lemma_split_of_join(kept);
    lemma_plain_line_is_trimmed(once);
    lemma_trim_twice(join_with(shown, ' '));
}

proof fn lemma_split_concat(x: Seq<char>, y: Seq<char>)
    ensures
        split_on(x + seq![' '] + y, ' ') == split_on(x, ' ') + split_on(y, ' '),
    decreases y.len(),
{
    let z = x + seq![' '] + y;
    if y.len() == 0 {
        assert(z.drop_last() =~= x);
        assert(split_on(x, ' ').push(Seq::<char>::empty()) =~= split_on(x, ' ') + split_on(y, ' '));
    } else {
        let init = y.drop_last();
        let c = y[y.len() - 1];
        assert(c == y.last());
        lemma_split_concat(x, init);
        crate::text::lemma_split_nonempty(init, ' ');
        assert(z.drop_last() =~= x + seq![' '] + init);
        assert(z.last() == c);
        let p = split_on(x, ' ');
        let q = split_on(init, ' ');
        if c == ' ' {
            assert((p + q).push(Seq::<char>::empty()) =~= p + q.push(Seq::<char>::empty()));
        } else {
            let pq = p + q;
            assert(pq.last() == q.last());
            assert(pq.update(pq.len() - 1, pq.last().push(c)) =~= p + q.update(
                q.len() - 1,
                q.last().push(c),
            ));
        }
    }
}

proof fn lemma_shown_words_concat(p: Seq<Seq<char>>, q: Seq<Seq<char>>)
    ensures
        shown_words(p + q) == shown_words(p) + shown_words(q),
    decreases q.len(),
{
    if q.len() == 0 {
        assert(p + q =~= p);
        assert(shown_words(p) + shown_words(q) =~= shown_words(p));
    } else {
        lemma_shown_words_concat(p, q.drop_last());
        assert((p + q).drop_last() =~= p + q.drop_last());
        assert((p + q).last() == q.last());
        assert(shown_words(p + q) =~= shown_words(p) + shown_words(q));
    }
}

proof fn lemma_split_first_nonempty(s: Seq<char>)
    requires
        s.len() > 0,
        s[0] != ' ',
    ensures
        split_on(s, ' ')[0].len() > 0,
    decreases s.len(),
{
    let init = s.drop_last();
    crate::text::lemma_split_nonempty(init, ' ');
    if s.len() > 1 {
        assert(init[0] == s[0]);
        lemma_split_first_nonempty(init);
    }
}

proof fn lemma_edges_trim(x: Seq<char>)
    requires
        x.len() > 0,
        !is_white_space(x[0]),
        !is_white_space(x.last()),
    ensures
        trim(x) == x,
{
    assert(trim_start(x) == x);
    assert(trim_end(x) == x);
}

/// For a line that starts and ends with something other than a space and
/// whose only white space is the space character: what it shows is
/// free of white space at both ends, and its shown words are what it shows
/// followed by a space.
proof fn lemma_inner_line_shown(a: Seq<char>)
    requires
        a.len() > 0,
        a[0] != ' ',
        a.last() != ' ',
        forall|i: int| 0 <= i < a.len() ==> #[trigger] a[i] == ' ' || !is_white_space(a[i]),
    ensures
        shown_words(split_on(a, ' ')) == with_emojis(a).push(' '),
        with_emojis(a).len() > 0,
        !is_white_space(with_emojis(a)[0]),
        !is_white_space(with_emojis(a).last()),
{
    let words = split_on(a, ' ');
    crate::text::lemma_split_nonempty(a, ' ');
    lemma_split_no_white(a);
    lemma_split_first_nonempty(a);
    crate::text::lemma_split_nonempty(a.drop_last(), ' ');
    assert(a.last() == a[a.len() - 1]);
    assert(words.last().len() > 0);
    let shown = words.map_values(|w: Seq<char>| shown_word(w));
    assert forall|k: int| 0 <= k < shown.len() implies plain_word(#[trigger] shown[k]) && (
    words[k].len() > 0 ==> shown[k].len() > 0) by {
        assert(no_white(words[k]));
        lemma_shown_word_plain(words[k]);
    }
    let n = shown.len() - 1;
    assert(shown[0].len() > 0);
    assert(shown[n].len() > 0);
    assert(no_white(shown[0]));
    assert(no_white(shown[n]));
    let j = join_with(shown, ' ');
    if shown.len() >= 2 {
        lemma_join_front(shown);
        assert(j[0] == shown[0][0]);
        assert(j == join_with(shown.drop_last(), ' ') + seq![' '] + shown.last());
    } else {
        assert(j == shown[0]);
    }
    assert(shown.last() == shown[n]);
    assert(j.last() == shown[n][shown[n].len() - 1]);
    lemma_shown_words_join(words);
    lemma_trim_push_white_space(j, ' ');
    lemma_edges_trim(j);
}

/// Turning emoji names into emojis works word by word: for two lines that
/// each start and end with something other than a space and whose only
/// white space is the space character, the line made of both with one
/// space between shows as the one shown, a space, and the other shown.
pub proof fn lemma_emojis_split_at_space(a: Seq<char>, b: Seq<char>)
    requires
        a.len() > 0,
        b.len() > 0,
        a[0] != ' ',
        a.last() != ' ',
        b[0] != ' ',
        b.last() != ' ',
        forall|i: int| 0 <= i < a.len() ==> #[trigger] a[i] == ' ' || !is_white_space(a[i]),
        forall|i: int| 0 <= i < b.len() ==> #[trigger] b[i] == ' ' || !is_white_space(b[i]),
    ensures
        with_emojis(a + seq![' '] + b) == with_emojis(a) + seq![' '] + with_emojis(b),
{
    lemma_split_concat(a, b);
    lemma_shown_words_concat(split_on(a, ' '), split_on(b, ' '));
    lemma_inner_line_shown(a);
    lemma_inner_line_shown(b);
    let x = with_emojis(a);
    let y = with_emojis(b);
    let both = x + seq![' '] + y;
    assert(x.push(' ') + y.push(' ') =~= both.push(' '));
    lemma_trim_push_white_space(both, ' ');
    assert(both[0] == x[0]);
    assert(both.last() == y.last());
    lemma_edges_trim(both);
}

} // verus!
