use vstd::prelude::*;

verus! {

/// Where the `python3` on the search path comes from.
#[derive(PartialEq, Eq, Structural, Clone, Copy, Debug)]
pub enum PythonEnv {
    Pyenv,
    Homebrew,
    System,
}

/// Whether `t` occurs in `s` starting at position `i`.
pub open spec fn occurs_at(s: Seq<char>, t: Seq<char>, i: int) -> bool {
    0 <= i && i + t.len() <= s.len() && s.subrange(i, i + t.len()) == t
}

/// Whether `t` occurs in `s`.
pub open spec fn occurs(s: Seq<char>, t: Seq<char>) -> bool {
    exists|i: int| occurs_at(s, t, i)
}

pub open spec fn pyenv_marker() -> Seq<char> {
    seq!['.', 'p', 'y', 'e', 'n', 'v']
}

pub open spec fn homebrew_marker() -> Seq<char> {
    seq!['/', 'u', 's', 'r', '/', 'l', 'o', 'c', 'a', 'l', '/']
}

/// An interpreter under a `.pyenv` directory is pyenv's; one under
/// `/usr/local/` is Homebrew's; any other is the system's.
pub open spec fn env_model(path: Seq<char>) -> PythonEnv {
    if occurs(path, pyenv_marker()) {
        PythonEnv::Pyenv
    } else if occurs(path, homebrew_marker()) {
        PythonEnv::Homebrew
    } else {
        PythonEnv::System
    }
}

fn occurs_in(s: &Vec<char>, t: &Vec<char>) -> (r: bool)
    ensures
        r == occurs(s@, t@),
{
    if t.len() > s.len() {
        assert(forall|i: int| !occurs_at(s@, t@, i));
        return false;
    }
    let last = s.len() - t.len();
    let mut i: usize = 0;
    while i <= last
        invariant
            last == s.len() - t.len(),
            t.len() <= s.len(),
            i <= last + 1,
            forall|j: int| 0 <= j < i ==> !occurs_at(s@, t@, j),
        decreases last + 1 - i,
    {
        let mut j: usize = 0;
        let mut same = true;
        while j < t.len()
            invariant
                i <= last,
                last == s.len() - t.len(),
                j <= t.len(),
                same == (forall|q: int| 0 <= q < j ==> s@[i + q] == t@[q]),
            decreases t.len() - j,
        {
            if s[i + j] != t[j] {
                same = false;
            }
            j = j + 1;
        }
        if same {
            assert(s@.subrange(i as int, i + t.len()) =~= t@);
            assert(occurs_at(s@, t@, i as int));
            return true;
        }
        proof {
            if occurs_at(s@, t@, i as int) {
                assert forall|q: int| 0 <= q < t.len() implies s@[i + q] == t@[q] by {
                    assert(s@.subrange(i as int, i + t.len())[q] == s@[i + q]);
                };
            }
        }
        i = i + 1;
    }
    assert forall|k: int| !occurs_at(s@, t@, k) by {
        if occurs_at(s@, t@, k) {
            assert(k < i);
        }
    };
    false
}

/// Classifies the path of the interpreter found on the search path.
pub fn classify_env(path: &Vec<char>) -> (r: PythonEnv)
    ensures
        r == env_model(path@),
{
    let pyenv: Vec<char> = vec!['.', 'p', 'y', 'e', 'n', 'v'];
    let homebrew: Vec<char> = vec!['/', 'u', 's', 'r', '/', 'l', 'o', 'c', 'a', 'l', '/'];
    assert(pyenv@ =~= pyenv_marker());
    assert(homebrew@ =~= homebrew_marker());
    if occurs_in(path, &pyenv) {
        PythonEnv::Pyenv
    } else if occurs_in(path, &homebrew) {
        PythonEnv::Homebrew
    } else {
        PythonEnv::System
    }
}

/// The characters with the Unicode `White_Space` property, which is the
/// set that `char::is_whitespace` and `str::split_whitespace` go by.
pub open spec fn is_space(c: char) -> bool {
    let u = c as u32;
    ||| 0x09 <= u <= 0x0d
    ||| u == 0x20
    ||| u == 0x85
    ||| u == 0xa0
    ||| u == 0x1680
    ||| 0x2000 <= u <= 0x200a
    ||| u == 0x2028
    ||| u == 0x2029
    ||| u == 0x202f
    ||| u == 0x205f
    ||| u == 0x3000
}

/// Whether `text[a..b]` is the last word of `text`: a non-empty run of
/// non-space characters, bounded by spaces or the ends of the text, with
/// only spaces after it.
pub open spec fn last_word_at(text: Seq<char>, a: int, b: int) -> bool {
    &&& 0 <= a < b <= text.len()
    &&& forall|i: int| a <= i < b ==> !is_space(text[i])
    &&& forall|i: int| b <= i < text.len() ==> is_space(text[i])
    &&& (a == 0 || is_space(text[a - 1]))
}

fn space(c: char) -> (r: bool)
    ensures
        r == is_space(c),
{
    let u = c as u32;
    (0x09 <= u && u <= 0x0d) || u == 0x20 || u == 0x85 || u == 0xa0 || u == 0x1680 || (0x2000
        <= u && u <= 0x200a) || u == 0x2028 || u == 0x2029 || u == 0x202f || u == 0x205f || u
        == 0x3000
}

/// The last whitespace-separated word of `text`, or `None` when the text
/// holds nothing but spaces.
pub fn last_word(text: &Vec<char>) -> (r: Option<Vec<char>>)
    ensures
        match r {
            Some(w) => exists|a: int, b: int| last_word_at(text@, a, b) && w@ == text@.subrange(a, b),
            None => forall|i: int| 0 <= i < text.len() ==> is_space(text@[i]),
        },
{
    let mut b: usize = text.len();
    while b > 0 && space(text[b - 1])
        invariant
            b <= text.len(),
            forall|i: int| b <= i < text.len() ==> is_space(text@[i]),
        decreases b,
    {
        b = b - 1;
    }
    if b == 0 {
        return None;
    }
    let mut a: usize = b - 1;
    while a > 0 && !space(text[a - 1])
        invariant
            0 <= a < b,
            b <= text.len(),
            forall|i: int| a <= i < b ==> !is_space(text@[i]),
        decreases a,
    {
        a = a - 1;
    }
    let mut w: Vec<char> = Vec::new();
    let mut i: usize = a;
    while i < b
        invariant
            a <= i <= b,
            b <= text.len(),
            w@ == text@.subrange(a as int, i as int),
        decreases b - i,
    {
        w.push(text[i]);
        i = i + 1;
    }
    assert(last_word_at(text@, a as int, b as int));
    Some(w)
}

} // verus!
