//! Paths of assets, relative to the root under which all assets live.

use vstd::prelude::*;
use vstd::string::StringExecFns;

verus! {

/// The path of one asset, as text with `/` between its parts. It is relative
/// to the assets' root, which only the code that opens files knows.
#[derive(Debug)]
pub struct Path {
    p: String,
}

impl View for Path {
    type V = Seq<char>;

    closed spec fn view(&self) -> Seq<char> {
        self.p@
    }
}

impl Path {
    /// The path that a piece of fixed text spells.
    pub fn new(p: &'static str) -> (path: Self)
        ensures
            path@ == p@,
    {
        Path { p: String::from_str(p) }
    }

    /// The path that an owned string spells.
    pub fn new_owned(p: String) -> (path: Self)
        ensures
            path@ == p@,
    {
        Path { p }
    }

    /// The text of the path.
    pub fn as_str(&self) -> (text: &str)
        ensures
            text@ == self@,
    {
        self.p.as_str()
    }

    /// The text of the path, as a string of its own.
    pub fn to_string(&self) -> (text: String)
        ensures
            text@ == self@,
    {
        self.p.clone()
    }

    /// This path followed by `/` and `tail`.
    pub fn join(&self, tail: &str) -> (joined: Self)
        ensures
            joined@ == joined_text(self@, tail@),
    {
        let mut text = self.p.clone();
        proof {
            reveal_strlit("/");
        }
        text.append("/");
        text.append(tail);
        assert(text@ =~= joined_text(self@, tail@));
        Path { p: text }
    }
}

impl Clone for Path {
    fn clone(&self) -> (copy: Self)
        ensures
            copy@ == self@,
    {
        Path { p: self.p.clone() }
    }
}

/// `text` with every backslash turned into a slash.
pub open spec fn slashed(text: Seq<char>) -> Seq<char> {
    Seq::new(text.len(), |i: int| slash_for_backslash(text[i]))
}

/// A slash for a backslash, and every other character as it is.
pub open spec fn slash_for_backslash(c: char) -> char {
    if c == '\\' {
        '/'
    } else {
        c
    }
}

/// `text` with each pair of slashes made one slash. Pairs are found from
/// the left and do not overlap: of three slashes in a row, two are left.
pub open spec fn squeezed(text: Seq<char>) -> Seq<char>
    decreases text.len(),
{
    if text.len() == 0 {
        text
    } else if text.len() >= 2 && text[0] == '/' && text[1] == '/' {
        seq!['/'] + squeezed(text.skip(2))
    } else {
        seq![text[0]] + squeezed(text.skip(1))
    }
}

/// The place of the asset `p` below the directory `root`: `root`, then
/// `/resources/external/`, then `p`, with slashes for backslashes and then
/// pairs of slashes made one.
pub open spec fn external_text(root: Seq<char>, p: Seq<char>) -> Seq<char> {
    squeezed(slashed(root + "/resources/external/"@ + p))
}

/// Where the file of the asset `p` lies, given the directory `root` that
/// holds the program's resources.
pub fn external_path(root: &str, p: &str) -> (full: String)
    ensures
        full@ == external_text(root@, p@),
{
    let mut joined = String::from_str(root);
    joined.append("/resources/external/");
    joined.append(p);
    let text = joined.as_str();
    let ghost goal = slashed(text@);
    let n = text.unicode_len();
    let mut full = String::new();
    let mut i: usize = 0;
    proof {
        reveal_strlit("/");
        assert(goal.skip(0) =~= goal);
        assert(full@ + squeezed(goal) =~= squeezed(goal));
    }
    while i < n
        invariant
            n == text@.len(),
            goal == slashed(text@),
            i <= n,
            full@ + squeezed(goal.skip(i as int)) == squeezed(goal),
            "/"@ == seq!['/'],
        decreases n - i,
    {
        let ghost rest = goal.skip(i as int);
        let ghost before = full@;
        let c = text.get_char(i);
        let slash_here = c == '/' || c == '\\';
        if slash_here && i + 1 < n && is_slash(text.get_char(i + 1)) {
            full.append("/");
            proof {
                assert(rest.skip(2) =~= goal.skip(i + 2));
                assert(full@ + squeezed(goal.skip(i + 2)) =~= before + squeezed(rest));
            }
            i += 2;
        } else {
            if slash_here {
                full.append("/");
            } else {
                full.append(text.substring_char(i, i + 1));
                assert(text@.subrange(i as int, i + 1) =~= seq![c]);
            }
            proof {
                assert(rest.skip(1) =~= goal.skip(i + 1));
                assert(full@ + squeezed(goal.skip(i + 1)) =~= before + squeezed(rest));
            }
            i += 1;
        }
    }
    full
}

/// Whether `c` is a slash once backslashes count as slashes.
fn is_slash(c: char) -> (slash: bool)
    ensures
        slash == (slash_for_backslash(c) == '/'),
{
    c == '/' || c == '\\'
}

/// The text of `head`, a `/`, and the text of `tail`.
pub open spec fn joined_text(head: Seq<char>, tail: Seq<char>) -> Seq<char> {
    head + seq!['/'] + tail
}

} // verus!
