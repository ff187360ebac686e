use vstd::prelude::*;
use crate::text::{chars_of, string_of};

verus! {

/// What `char::is_alphanumeric` says of `c`.
pub uninterp spec fn alphanumeric(c: char) -> bool;

/// What `str::to_lowercase` makes of the characters `s`.
pub uninterp spec fn lower_of(s: Seq<char>) -> Seq<char>;

/// Relies on `char::is_alphanumeric`: a letter or a number in Unicode's sense.
#[verifier::external_body]
fn is_word_char(c: char) -> (r: bool)
    ensures
        r == alphanumeric(c),
{
    c.is_alphanumeric()
}

/// Relies on `str::to_lowercase`: the result depends on the characters alone,
/// and each character lowers to one character or more.
#[verifier::external_body]
fn lowercase(s: &str) -> (r: String)
    ensures
        r@ == lower_of(s@),
        s@.len() > 0 ==> r@.len() > 0,
{
    s.to_lowercase()
}

/// The words found so far in `s` and the word being read at its end: a word is a
/// run of alphanumeric characters, ended by any other character.
pub open spec fn split_words(s: Seq<char>) -> (Seq<Seq<char>>, Seq<char>)
    decreases s.len(),
{
    if s.len() == 0 {
        (Seq::empty(), Seq::empty())
    } else {
        let (done, cur) = split_words(s.drop_last());
        if alphanumeric(s.last()) {
            (done, cur.push(s.last()))
        } else {
            (done.push(cur), Seq::empty())
        }
    }
}

/// The words of `s`, in order, with the empty ones between two separators.
pub open spec fn words(s: Seq<char>) -> Seq<Seq<char>> {
    split_words(s).0.push(split_words(s).1)
}

/// Whether a word is counted: it is not empty and has `min` characters at least.
pub open spec fn counted(w: Seq<char>, min: nat) -> bool {
    w.len() > 0 && w.len() >= min
}

/// The key a word is counted under.
pub open spec fn word_key(w: Seq<char>, ignore_case: bool) -> Seq<char> {
    if ignore_case {
        lower_of(w)
    } else {
        w
    }
}

pub open spec fn has_key(t: Seq<(Seq<char>, nat)>, k: Seq<char>) -> bool {
    exists|j: int| 0 <= j < t.len() && #[trigger] t[j].0 == k
}

/// `t` with one more occurrence of `k`: its entry goes up by one, or a new entry
/// of one comes last.
pub open spec fn bump(t: Seq<(Seq<char>, nat)>, k: Seq<char>) -> Seq<(Seq<char>, nat)> {
    if has_key(t, k) {
        let j = choose|j: int| 0 <= j < t.len() && #[trigger] t[j].0 == k;
        t.update(j, (k, t[j].1 + 1))
    } else {
        t.push((k, 1))
    }
}

/// `t` after word `w` is offered to it.
pub open spec fn add_word(t: Seq<(Seq<char>, nat)>, w: Seq<char>, min: nat, ignore_case: bool) -> Seq<
    (Seq<char>, nat),
> {
    if counted(w, min) {
        bump(t, word_key(w, ignore_case))
    } else {
        t
    }
}

/// The counts of the words `ws`, keys in the order they first come.
pub open spec fn tally(ws: Seq<Seq<char>>, min: nat, ignore_case: bool) -> Seq<(Seq<char>, nat)>
    decreases ws.len(),
{
    if ws.len() == 0 {
        Seq::empty()
    } else {
        add_word(tally(ws.drop_last(), min, ignore_case), ws.last(), min, ignore_case)
    }
}

pub open spec fn keys_unique(t: Seq<(Seq<char>, nat)>) -> bool {
    forall|i: int, j: int| 0 <= i < j < t.len() ==> t[i].0 != t[j].0
}

/// How often each word occurs: one entry per word, in the order of first
/// occurrence.
pub struct WordCounts {
    entries: Vec<(String, usize)>,
}

impl View for WordCounts {
    type V = Seq<(Seq<char>, nat)>;

    closed spec fn view(&self) -> Seq<(Seq<char>, nat)> {
        self.entries@.map_values(|e: (String, usize)| (e.0@, e.1 as nat))
    }
}

impl WordCounts {
    /// Keys are distinct and not empty, and each count is one at least.
    pub open spec fn wf(&self) -> bool {
        &&& keys_unique(self@)
        &&& forall|j: int| 0 <= j < self@.len() ==> (#[trigger] self@[j]).0.len() > 0 && self@[j].1 >= 1
    }

    pub fn new() -> (r: WordCounts)
        ensures
            r@ == Seq::<(Seq<char>, nat)>::empty(),
            r.wf(),
    {
        let r = WordCounts { entries: Vec::new() };
        assert(r@ =~= Seq::<(Seq<char>, nat)>::empty());
        assert(r@.len() == 0);
        r
    }

    /// The number of distinct words.
    pub fn len(&self) -> (r: usize)
        ensures
            r == self@.len(),
    {
        self.entries.len()
    }

    /// The word and count of entry `i`.
    pub fn entry(&self, i: usize) -> (r: (String, usize))
        requires
            i < self@.len(),
        ensures
            r.0@ == self@[i as int].0,
            r.1 == self@[i as int].1,
    {
        let (w, c) = &self.entries[i];
        (w.clone(), *c)
    }

    /// How often `word` was counted: zero if never.
    pub fn count_of(&self, word: &str) -> (r: usize)
        requires
            self.wf(),
        ensures
            has_key(self@, word@) ==> exists|j: int|
                0 <= j < self@.len() && #[trigger] self@[j].0 == word@ && r == self@[j].1,
            !has_key(self@, word@) ==> r == 0,
    {
        let key = word.to_owned();
        let mut j: usize = 0;
        while j < self.entries.len()
            invariant
                j <= self@.len() == self.entries.len(),
                key@ == word@,
                forall|m: int| 0 <= m < j ==> #[trigger] self@[m].0 != word@,
            decreases self.entries.len() - j,
        {
            assert(self@[j as int].0 == self.entries[j as int].0@);
            if self.entries[j].0 == key {
                return self.entries[j].1;
            }
            j = j + 1;
        }
        0
    }

    /// Counts one more occurrence of `key`.
    fn bump(&mut self, key: String)
        requires
            old(self).wf(),
            key@.len() > 0,
            forall|j: int| 0 <= j < old(self)@.len() ==> #[trigger] old(self)@[j].1 < usize::MAX,
        ensures
            final(self)@ == bump(old(self)@, key@),
            final(self).wf(),
    {
        let ghost t = self@;
        let mut j: usize = 0;
        while j < self.entries.len()
            invariant
                j <= self@.len() == self.entries.len(),
                self@ == t,
                t == old(self)@,
                old(self).wf(),
                key@.len() > 0,
                keys_unique(t),
                forall|m: int| 0 <= m < t.len() ==> #[trigger] t[m].1 < usize::MAX,
                forall|m: int| 0 <= m < j ==> #[trigger] t[m].0 != key@,
            decreases self.entries.len() - j,
        {
            assert(t[j as int].0 == self.entries[j as int].0@);
            if self.entries[j].0 == key {
                let c = self.entries[j].1;
                assert(t[j as int].1 == c);
                self.entries.set(j, (key, c + 1));
                proof {
                    assert(t[j as int].0 == key@);
                    assert(has_key(t, key@));
                    let jj = choose|jj: int| 0 <= jj < t.len() && #[trigger] t[jj].0 == key@;
                    assert(jj == j);
                    assert(self@ =~= t.update(j as int, (key@, t[j as int].1 + 1)));
                }
                return;
            }
            j = j + 1;
        }
        assert(!has_key(t, key@));
        self.entries.push((key, 1));
        assert(self@ =~= t.push((key@, 1)));
    }
}

/// Counts `word` in `map` under its key (lowercased when `ignore_case`) if it is
/// not empty and has `min_length` characters at least.
pub fn add_word_if_valid(map: &mut WordCounts, word: &str, min_length: usize, ignore_case: bool)
    requires
        old(map).wf(),
        forall|j: int| 0 <= j < old(map)@.len() ==> #[trigger] old(map)@[j].1 < usize::MAX,
    ensures
        final(map)@ == add_word(old(map)@, word@, min_length as nat, ignore_case),
        final(map).wf(),
{
    if word.is_empty() {
        return;
    }
    if chars_of(word).len() < min_length {
        return;
    }
    let final_word = if ignore_case {
        lowercase(word)
    } else {
        word.to_owned()
    };
    map.bump(final_word);
}

/// Counts the words of `text`: runs of alphanumeric characters, each kept if it
/// has `min_length` characters at least, under its lowercase form when
/// `ignore_case`.
pub fn count_word_frequencies(text: &str, min_length: usize, ignore_case: bool) -> (r: WordCounts)
    ensures
        r@ == tally(words(text@), min_length as nat, ignore_case),
        r.wf(),
{
    let v = chars_of(text);
    let n = v.len();
    let mut map = WordCounts::new();
    let mut current: Vec<char> = Vec::new();
    let mut i: usize = 0;
    while i < n
        invariant
            i <= n == v.len(),
            v@ == text@,
            map.wf(),
            map@ == tally(split_words(v@.take(i as int)).0, min_length as nat, ignore_case),
            current@ == split_words(v@.take(i as int)).1,
            forall|j: int| 0 <= j < map@.len() ==> #[trigger] map@[j].1 + current.len() <= i,
        decreases n - i,
    {
        let c = v[i];
        assert(v@.take(i + 1).drop_last() =~= v@.take(i as int));
        if is_word_char(c) {
            current.push(c);
        } else {
            let word = string_of(&current);
            let ghost before = map@;
            add_word_if_valid(&mut map, word.as_str(), min_length, ignore_case);
            proof {
                let ws = split_words(v@.take(i as int)).0.push(current@);
                assert(ws.drop_last() =~= split_words(v@.take(i as int)).0);
                assert forall|j: int| 0 <= j < map@.len() implies #[trigger] map@[j].1 <= i + 1 by {
                    if counted(current@, min_length as nat) {
                        let k = word_key(current@, ignore_case);
                        if has_key(before, k) {
                            let jj = choose|jj: int| 0 <= jj < before.len() && #[trigger] before[jj].0 == k;
                            assert(before[jj].1 + current.len() <= i);
                        }
                    }
                }
            }
            current = Vec::new();
        }
        i = i + 1;
    }
    assert(v@.take(n as int) =~= v@);
    let ghost done = split_words(v@).0;
    if current.len() > 0 {
        let word = string_of(&current);
        add_word_if_valid(&mut map, word.as_str(), min_length, ignore_case);
    }
    assert(words(text@).drop_last() =~= done);
    map
}

/// The decimal digit of `n`, below 10.
pub open spec fn dec_char(n: nat) -> char {
    ((48 + n) as u8) as char
}

/// The decimal digits of `n`, with no leading zero (`0` is `"0"`).
pub open spec fn dec_digits(n: nat) -> Seq<char>
    decreases n,
{
    if n < 10 {
        seq![dec_char(n)]
    } else {
        dec_digits(n / 10).push(dec_char(n % 10))
    }
}

/// The digits `d` with a comma before each group of three, counted from the right.
pub open spec fn group_thousands(d: Seq<char>) -> Seq<char>
    decreases d.len(),
{
    if d.len() <= 3 {
        d
    } else {
        group_thousands(d.subrange(0, d.len() - 3)) + seq![','] + d.subrange(
            d.len() - 3,
            d.len() as int,
        )
    }
}

/// Appends the decimal digits of `n`.
fn push_decimal(out: &mut Vec<char>, n: usize)
    ensures
        final(out)@ == old(out)@ + dec_digits(n as nat),
    decreases n,
{
    if n >= 10 {
        push_decimal(out, n / 10);
    }
    out.push(((48 + n % 10) as u8) as char);
}

/// Appends the first `end` digits of `d`, grouped by three from the right.
fn push_grouped(out: &mut Vec<char>, d: &Vec<char>, end: usize)
    requires
        end <= d.len(),
    ensures
        final(out)@ == old(out)@ + group_thousands(d@.subrange(0, end as int)),
    decreases end,
{
    let ghost p = d@.subrange(0, end as int);
    if end <= 3 {
        let mut i: usize = 0;
        let ghost start = out@;
        while i < end
            invariant
                i <= end <= d.len(),
                out@ == start + d@.subrange(0, i as int),
            decreases end - i,
        {
            out.push(d[i]);
            assert(out@ =~= start + d@.subrange(0, i + 1));
            i = i + 1;
        }
    } else {
        push_grouped(out, d, end - 3);
        assert(p.subrange(0, p.len() - 3) =~= d@.subrange(0, end - 3));
        out.push(',');
        out.push(d[end - 3]);
        out.push(d[end - 2]);
        out.push(d[end - 1]);
        assert(out@ =~= old(out)@ + group_thousands(p));
    }
}

/// `n` in decimal, with a comma between groups of three digits: `1234567` is
/// `1,234,567`.
pub fn format_number(n: usize) -> (r: String)
    ensures
        r@ == group_thousands(dec_digits(n as nat)),
{
    let mut digits: Vec<char> = Vec::new();
    push_decimal(&mut digits, n);
    let mut out: Vec<char> = Vec::new();
    push_grouped(&mut out, &digits, digits.len());
    assert(digits@.subrange(0, digits.len() as int) =~= digits@);
    assert(out@ =~= group_thousands(dec_digits(n as nat)));
    string_of(&out)
}

} // verus!
