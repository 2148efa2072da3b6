//! Request paths, taken apart at their slashes.
use vstd::prelude::*;
use vstd::utf8;

verus! {

/// How many characters of `s` come before the first `c`; all of them where `c` does not occur.
pub open spec fn run_before(s: Seq<char>, c: char) -> nat
    decreases s.len(),
{
    if s.len() == 0 || s[0] == c {
        0
    } else {
        1 + run_before(s.drop_first(), c)
    }
}

/// The pieces of `s` between its occurrences of `c`: one more than there are occurrences, and
/// each without a `c`.
pub open spec fn split(s: Seq<char>, c: char) -> Seq<Seq<char>>
    decreases s.len(),
{
    let n = run_before(s, c);
    if n >= s.len() {
        seq![s]
    } else {
        seq![s.take(n as int)] + split(s.skip(n as int + 1), c)
    }
}

/// `s` without the `c`s that it starts with.
pub open spec fn trim_start(s: Seq<char>, c: char) -> Seq<char>
    decreases s.len(),
{
    if s.len() > 0 && s[0] == c {
        trim_start(s.drop_first(), c)
    } else {
        s
    }
}

/// `pieces` written one after the other with a `c` between each two.
pub open spec fn join(pieces: Seq<Seq<char>>, c: char) -> Seq<char>
    decreases pieces.len(),
{
    if pieces.len() == 0 {
        seq![]
    } else if pieces.len() == 1 {
        pieces[0]
    } else {
        pieces[0] + seq![c] + join(pieces.drop_first(), c)
    }
}

proof fn lemma_run_before(s: Seq<char>, c: char, n: nat)
    requires
        n <= s.len(),
        forall|j: int| 0 <= j < n ==> s[j] != c,
        n < s.len() ==> s[n as int] == c,
    ensures
        run_before(s, c) == n,
    decreases n,
{
    if n > 0 {
        lemma_run_before(s.drop_first(), c, (n - 1) as nat);
    }
}

proof fn lemma_trim_start(s: Seq<char>, c: char, n: nat)
    requires
        n <= s.len(),
        forall|j: int| 0 <= j < n ==> s[j] == c,
        n < s.len() ==> s[n as int] != c,
    ensures
        trim_start(s, c) == s.skip(n as int),
    decreases n,
{
    if n > 0 {
        lemma_trim_start(s.drop_first(), c, (n - 1) as nat);
        assert(s.drop_first().skip(n - 1) == s.skip(n as int));
    } else {
        assert(s.skip(0) == s);
    }
}

/// Whether two texts hold the same characters.
pub fn same_text(a: &str, b: &str) -> (same: bool)
    ensures
        same == (a@ == b@),
{
    broadcast use utf8::encode_utf8_decode_utf8;

    let x: &[u8] = a.as_bytes();
    let y: &[u8] = b.as_bytes();
    let same: bool = same_bytes(x, y);
    assert(utf8::encode_utf8(a@) == utf8::encode_utf8(b@) ==> a@ == b@) by {
        assert(utf8::decode_utf8(utf8::encode_utf8(a@)) == a@);
        assert(utf8::decode_utf8(utf8::encode_utf8(b@)) == b@);
    }
    same
}

/// Whether two byte strings hold the same bytes.
pub fn same_bytes(a: &[u8], b: &[u8]) -> (same: bool)
    ensures
        same == (a@ == b@),
{
    if a.len() != b.len() {
        return false;
    }
    let n: usize = a.len();
    for i in 0..n
        invariant
            n == a@.len(),
            n == b@.len(),
            forall|j: int| 0 <= j < i ==> a@[j] == b@[j],
    {
        if a[i] != b[i] {
            return false;
        }
    }
    assert(a@ =~= b@);
    true
}

/// The number of characters before the first `c`, and the number of all characters.
fn scan(s: &str, c: char) -> (r: (usize, usize))
    ensures
        r.0 == run_before(s@, c),
        r.0 <= r.1,
        r.1 == s@.len(),
{
    let n: usize = s.unicode_len();
    let mut k: usize = 0;
    let mut open: bool = true;
    for x in it: s.chars()
        invariant
            it.seq() == s@,
            n == s@.len(),
            k <= it.index(),
            open ==> k == it.index(),
            !open ==> k < it.index() && s@[k as int] == c,
            forall|j: int| 0 <= j < k ==> s@[j] != c,
    {
        if open {
            if x == c {
                open = false;
            } else {
                k = k + 1;
            }
        }
    }
    proof {
        lemma_run_before(s@, c, k as nat);
    }
    (k, n)
}

/// A path without the slashes that it starts with.
pub fn trim_slashes(s: &str) -> (r: &str)
    ensures
        r@ == trim_start(s@, '/'),
{
    let n: usize = s.unicode_len();
    let mut k: usize = 0;
    let mut open: bool = true;
    for x in it: s.chars()
        invariant
            it.seq() == s@,
            n == s@.len(),
            k <= it.index(),
            open ==> k == it.index(),
            !open ==> k < it.index() && s@[k as int] != '/',
            forall|j: int| 0 <= j < k ==> s@[j] == '/',
    {
        if open {
            if x == '/' {
                k = k + 1;
            } else {
                open = false;
            }
        }
    }
    proof {
        lemma_trim_start(s@, '/', k as nat);
    }
    s.substring_char(k, n)
}

/// A path without its first character, where that is a slash.
pub fn trim_slash(s: &str) -> (r: &str)
    ensures
        s@.len() > 0 && s@[0] == '/' ==> r@ == s@.drop_first(),
        s@.len() == 0 || s@[0] != '/' ==> r@ == s@,
{
    if s.is_empty() || s.get_char(0) != '/' {
        s
    } else {
        let n: usize = s.unicode_len();
        s.substring_char(1, n)
    }
}

/// The parts of a path between its slashes, handed out from the front.
///
/// Seen as the sequence of the parts that are still to come.
#[derive(Clone, Copy, Debug)]
pub struct Parts<'r> {
    rest: Option<&'r str>,
}

impl<'r> View for Parts<'r> {
    type V = Seq<Seq<char>>;

    closed spec fn view(&self) -> Seq<Seq<char>> {
        match self.rest {
            None => seq![],
            Some(s) => split(s@, '/'),
        }
    }
}

impl<'r> Parts<'r> {
    /// All parts of `path`.
    pub fn new(path: &'r str) -> (parts: Self)
        ensures
            parts@ == split(path@, '/'),
    {
        Parts { rest: Some(path) }
    }

    /// Takes the next part, where one is left.
    pub fn next(&mut self) -> (part: Option<&'r str>)
        ensures
            old(self)@.len() == 0 ==> part is None && final(self)@ == old(self)@,
            old(self)@.len() > 0 ==> (part matches Some(p) && p@ == old(self)@[0]) && final(self)@
                == old(self)@.drop_first(),
    {
        match self.rest {
            None => None,
            Some(s) => {
                let (k, n) = scan(s, '/');
                if k == n {
                    self.rest = None;
                    assert(split(s@, '/').drop_first() =~= Seq::<Seq<char>>::empty());
                    Some(s)
                } else {
                    let tail: &'r str = s.substring_char(k + 1, n);
                    self.rest = Some(tail);
                    assert(s@.subrange(k + 1, n as int) =~= s@.skip(k + 1));
                    assert(split(s@, '/').drop_first() =~= split(tail@, '/'));
                    let head: &'r str = s.substring_char(0, k);
                    assert(head@ =~= s@.take(k as int));
                    Some(head)
                }
            },
        }
    }
}

} // verus!
