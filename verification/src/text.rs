//! String utilities: the first word of a sentence, the longer of two
//! strings, a borrowed excerpt, and a summary trait for presentable items.

use vstd::prelude::*;
use vstd::string::StringSliceAdditionalSpecFns;

verus! {

/// Index of the first space in `s`, or its length if it has none.
pub open spec fn first_space_idx(s: Seq<char>) -> int
    decreases s.len(),
{
    if s.len() == 0 {
        0
    } else if s[0] == ' ' {
        0
    } else {
        1 + first_space_idx(s.drop_first())
    }
}

proof fn lemma_first_space_at(s: Seq<char>, i: int)
    requires
        0 <= i <= s.len(),
        forall|k: int| 0 <= k < i ==> s[k] != ' ',
        i == s.len() || s[i] == ' ',
    ensures
        first_space_idx(s) == i,
    decreases i,
{
    if i > 0 {
        let t = s.drop_first();
        assert(forall|k: int| 0 <= k < i - 1 ==> t[k] == s[k + 1]);
        lemma_first_space_at(t, i - 1);
    }
}

/// Everything before the first space, or the whole string if it has no
/// space.
pub fn first_word(s: &str) -> (r: &str)
    ensures
        r@ == s@.subrange(0, first_space_idx(s@)),
{
    let n: usize = s.unicode_len();
    let mut i: usize = 0;
    while i < n
        invariant
            i <= n,
            n == s@.len(),
            forall|k: int| 0 <= k < i ==> s@[k] != ' ',
        ensures
            i <= n,
            n == s@.len(),
            forall|k: int| 0 <= k < i ==> s@[k] != ' ',
            i == n || s@[i as int] == ' ',
        decreases n - i,
    {
        if s.get_char(i) == ' ' {
            break ;
        }
        i = i + 1;
    }
    proof {
        lemma_first_space_at(s@, i as int);
    }
    s.substring_char(0, i)
}

/// The longer of two strings, preferring the first on a tie. Length is
/// measured in bytes, as `str::len` measures it.
pub fn longest<'a>(a: &'a str, b: &'a str) -> (r: &'a str)
    ensures
        a.spec_bytes().len() >= b.spec_bytes().len() ==> r@ == a@ && r.spec_bytes()
            == a.spec_bytes(),
        a.spec_bytes().len() < b.spec_bytes().len() ==> r@ == b@ && r.spec_bytes()
            == b.spec_bytes(),
{
    if a.as_bytes().len() >= b.as_bytes().len() {
        a
    } else {
        b
    }
}

/// A fragment borrowed from a longer text, alive only as long as its
/// source.
pub struct Excerpt<'a> {
    pub text: &'a str,
}

impl<'a> Excerpt<'a> {
    /// The importance level of an excerpt; every excerpt shares the same
    /// one.
    pub fn level(&self) -> (r: i32)
        ensures
            r == 3,
    {
        3
    }
}

/// Something that can present itself as a short summary line.
pub trait Summary {
    /// The one-line summary of the item.
    fn summarize(&self) -> String;

    /// The headline for the item; by default an invitation to read on.
    fn headline(&self) -> String {
        String::from_str("(Read more...)")
    }
}

/// How many bytes of an article's content its summary quotes at most.
pub const EXCERPT_LEN: usize = 50;

/// How many bytes `c` occupies in UTF-8.
pub open spec fn utf8_len(c: char) -> int {
    let u = c as u32;
    if u < 0x80 {
        1
    } else if u < 0x800 {
        2
    } else if u < 0x10000 {
        3
    } else {
        4
    }
}

/// The length, in characters, of the longest prefix of `s` whose UTF-8
/// encoding fits within `budget` bytes. A cut by bytes thus never splits a
/// character: where the byte limit falls inside one, the cut moves back to
/// the boundary before it.
pub open spec fn utf8_prefix(s: Seq<char>, budget: int) -> int
    decreases s.len(),
{
    if s.len() == 0 || utf8_len(s[0]) > budget {
        0
    } else {
        1 + utf8_prefix(s.drop_first(), budget - utf8_len(s[0]))
    }
}

/// The UTF-8 byte length of `s`.
pub open spec fn utf8_sum(s: Seq<char>) -> int
    decreases s.len(),
{
    if s.len() == 0 {
        0
    } else {
        utf8_len(s[0]) + utf8_sum(s.drop_first())
    }
}

proof fn lemma_utf8_sum_nonneg(s: Seq<char>)
    ensures
        utf8_sum(s) >= 0,
    decreases s.len(),
{
    if s.len() > 0 {
        lemma_utf8_sum_nonneg(s.drop_first());
    }
}

proof fn lemma_utf8_sum_push(s: Seq<char>, x: char)
    ensures
        utf8_sum(s.push(x)) == utf8_sum(s) + utf8_len(x),
    decreases s.len(),
{
    reveal_with_fuel(utf8_sum, 3);
    if s.len() == 0 {
        assert(s.push(x)[0] == x);
        assert(s.push(x).drop_first() =~= Seq::<char>::empty());
    } else {
        assert(s.push(x)[0] == s[0]);
        assert(s.push(x).drop_first() =~= s.drop_first().push(x));
        lemma_utf8_sum_push(s.drop_first(), x);
    }
}

proof fn lemma_utf8_prefix_at(s: Seq<char>, budget: int, i: int)
    requires
        0 <= i <= s.len(),
        utf8_sum(s.subrange(0, i)) <= budget,
        i == s.len() || utf8_sum(s.subrange(0, i)) + utf8_len(s[i]) > budget,
    ensures
        utf8_prefix(s, budget) == i,
    decreases i,
{
    assert(s.subrange(0, 0) =~= Seq::<char>::empty());
    if i > 0 {
        let t = s.drop_first();
        assert(s.subrange(0, i)[0] == s[0]);
        assert(s.subrange(0, i).drop_first() =~= t.subrange(0, i - 1));
        lemma_utf8_sum_nonneg(t.subrange(0, i - 1));
        if i < s.len() {
            assert(s[i] == t[i - 1]);
        }
        lemma_utf8_prefix_at(t, budget - utf8_len(s[0]), i - 1);
    }
}

fn char_utf8_len(c: char) -> (r: usize)
    ensures
        r as int == utf8_len(c),
{
    let u: u32 = c as u32;
    if u < 0x80 {
        1
    } else if u < 0x800 {
        2
    } else if u < 0x10000 {
        3
    } else {
        4
    }
}

fn utf8_prefix_end(s: &str, budget: usize) -> (r: usize)
    requires
        budget as int + 4 <= usize::MAX as int,
    ensures
        r as int == utf8_prefix(s@, budget as int),
        r <= s@.len(),
{
    let n: usize = s.unicode_len();
    let mut i: usize = 0;
    let mut used: usize = 0;
    while i < n
        invariant
            i <= n,
            n == s@.len(),
            budget as int + 4 <= usize::MAX as int,
            used as int == utf8_sum(s@.subrange(0, i as int)),
            used <= budget,
        ensures
            i <= n,
            n == s@.len(),
            used as int == utf8_sum(s@.subrange(0, i as int)),
            used <= budget,
            i == n || utf8_sum(s@.subrange(0, i as int)) + utf8_len(s@[i as int]) > budget as int,
        decreases n - i,
    {
        let c: char = s.get_char(i);
        let cl: usize = char_utf8_len(c);
        if used + cl > budget {
            break ;
        }
        proof {
            assert(s@.subrange(0, i as int + 1) =~= s@.subrange(0, i as int).push(s@[i as int]));
            lemma_utf8_sum_push(s@.subrange(0, i as int), s@[i as int]);
        }
        used = used + cl;
        i = i + 1;
    }
    proof {
        lemma_utf8_prefix_at(s@, budget as int, i as int);
    }
    i
}

/// The summary line of an article: title, author, and the opening of the
/// content — its longest prefix that fits in `EXCERPT_LEN` UTF-8 bytes, so
/// the byte cut never lands inside a character.
pub open spec fn article_summary(title: Seq<char>, author: Seq<char>, content: Seq<char>) -> Seq<
    char,
> {
    title + " by "@ + author + " — "@ + content.subrange(
        0,
        utf8_prefix(content, EXCERPT_LEN as int),
    ) + "..."@
}

/// A long-form piece with a title, an author and a body of content.
pub struct Article {
    pub title: String,
    pub author: String,
    pub content: String,
}

impl Summary for Article {
    fn summarize(&self) -> (r: String)
        ensures
            r@ == article_summary(self.title@, self.author@, self.content@),
    {
        let mut s = self.title.clone();
        s.append(" by ");
        s.append(self.author.as_str());
        s.append(" — ");
        let upto: usize = utf8_prefix_end(self.content.as_str(), EXCERPT_LEN);
        let frag: &str = self.content.as_str().substring_char(0, upto);
        s.append(frag);
        s.append("...");
        s
    }

    fn headline(&self) -> (r: String)
        ensures
            r@ == "Breaking: "@ + self.title@,
    {
        let mut s = String::from_str("Breaking: ");
        s.append(self.title.as_str());
        s
    }
}

/// A short message from a named account.
pub struct Tweet {
    pub username: String,
    pub body: String,
}

impl Summary for Tweet {
    fn headline(&self) -> (r: String)
        ensures
            r@ == "(Read more...)"@,
    {
        String::from_str("(Read more...)")
    }

    fn summarize(&self) -> (r: String)
        ensures
            r@ == "@"@ + self.username@ + ": "@ + self.body@,
    {
        let mut s = String::from_str("@");
        s.append(self.username.as_str());
        s.append(": ");
        s.append(self.body.as_str());
        s
    }
}

} // verus!
