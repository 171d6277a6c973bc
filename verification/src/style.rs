//! Comment styles: the closed set of comment-syntax families a run can
//! select, the token table that picks one, and the marker string of each.

use vstd::prelude::*;

verus! {

/// The comment-syntax family assumed for every file scanned in one run.
/// It is selected once from a command-line token and never changes.
#[derive(Debug, Clone, Copy, PartialEq, Eq, Structural)]
pub enum CommentType {
    C,
    LISP,
    PYTHON,
    DEFAULT,
}

/// ASCII lowercasing of one character; anything outside `'A'..='Z'` is
/// returned unchanged. Style tokens are plain ASCII words, so this is the
/// whole of the case-insensitivity the token table needs.
pub open spec fn lower_char(c: char) -> char {
    if c == 'A' {
        'a'
    } else if c == 'B' {
        'b'
    } else if c == 'C' {
        'c'
    } else if c == 'D' {
        'd'
    } else if c == 'E' {
        'e'
    } else if c == 'F' {
        'f'
    } else if c == 'G' {
        'g'
    } else if c == 'H' {
        'h'
    } else if c == 'I' {
        'i'
    } else if c == 'J' {
        'j'
    } else if c == 'K' {
        'k'
    } else if c == 'L' {
        'l'
    } else if c == 'M' {
        'm'
    } else if c == 'N' {
        'n'
    } else if c == 'O' {
        'o'
    } else if c == 'P' {
        'p'
    } else if c == 'Q' {
        'q'
    } else if c == 'R' {
        'r'
    } else if c == 'S' {
        's'
    } else if c == 'T' {
        't'
    } else if c == 'U' {
        'u'
    } else if c == 'V' {
        'v'
    } else if c == 'W' {
        'w'
    } else if c == 'X' {
        'x'
    } else if c == 'Y' {
        'y'
    } else if c == 'Z' {
        'z'
    } else {
        c
    }
}

/// The sequence with every character lowercased as by [`lower_char`].
pub open spec fn lower_seq(s: Seq<char>) -> Seq<char> {
    Seq::new(s.len(), |i: int| lower_char(s[i]))
}

/// The fixed, case-insensitive token table: which [`CommentType`] a
/// command-line token selects. Unknown tokens fall through to `DEFAULT`.
pub open spec fn spec_token_style(s: Seq<char>) -> CommentType {
    let l = lower_seq(s);
    if l == seq!['c'] || l == seq!['j', 's'] {
        CommentType::C
    } else if l == seq!['p', 'y', 't', 'h', 'o', 'n'] || l == seq!['p', 'y'] {
        CommentType::PYTHON
    } else if l == seq!['c', 'l', 'j'] || l == seq!['l', 's', 'p'] || l == seq![
        'l',
        'i',
        's',
        'p',
    ] {
        CommentType::LISP
    } else {
        CommentType::DEFAULT
    }
}

/// The single-line comment marker of each style.
pub open spec fn spec_marker(t: CommentType) -> Seq<char> {
    match t {
        CommentType::C => seq!['/', '/'],
        CommentType::LISP => seq![';'],
        CommentType::PYTHON => seq!['#'],
        CommentType::DEFAULT => seq!['/', '/'],
    }
}

fn lower_char_exec(c: char) -> (r: char)
    ensures
        r == lower_char(c),
{
    if c == 'A' {
        'a'
    } else if c == 'B' {
        'b'
    } else if c == 'C' {
        'c'
    } else if c == 'D' {
        'd'
    } else if c == 'E' {
        'e'
    } else if c == 'F' {
        'f'
    } else if c == 'G' {
        'g'
    } else if c == 'H' {
        'h'
    } else if c == 'I' {
        'i'
    } else if c == 'J' {
        'j'
    } else if c == 'K' {
        'k'
    } else if c == 'L' {
        'l'
    } else if c == 'M' {
        'm'
    } else if c == 'N' {
        'n'
    } else if c == 'O' {
        'o'
    } else if c == 'P' {
        'p'
    } else if c == 'Q' {
        'q'
    } else if c == 'R' {
        'r'
    } else if c == 'S' {
        's'
    } else if c == 'T' {
        't'
    } else if c == 'U' {
        'u'
    } else if c == 'V' {
        'v'
    } else if c == 'W' {
        'w'
    } else if c == 'X' {
        'x'
    } else if c == 'Y' {
        'y'
    } else if c == 'Z' {
        'z'
    } else {
        c
    }
}

/// True exactly when `s`, lowercased, equals `t`.
fn eq_lowered(s: &str, t: &str) -> (b: bool)
    ensures
        b == (lower_seq(s@) == t@),
{
    let n = s.unicode_len();
    if n != t.unicode_len() {
        proof {
            assert(lower_seq(s@).len() == s@.len());
        }
        return false;
    }
    let mut i: usize = 0;
    while i < n
        invariant
            i <= n,
            n == s@.len(),
            n == t@.len(),
            forall|j: int| 0 <= j < i ==> lower_char(s@[j]) == t@[j],
        decreases n - i,
    {
        let cs = s.get_char(i);
        let ct = t.get_char(i);
        if lower_char_exec(cs) != ct {
            proof {
                assert(lower_seq(s@)[i as int] == lower_char(s@[i as int]));
            }
            return false;
        }
        i += 1;
    }
    proof {
        assert(lower_seq(s@) =~= t@);
    }
    true
}

/// Maps a command-line token, case-insensitively, to the comment style it
/// selects; any unrecognised token selects `DEFAULT`.
pub fn str_to_comment_type(s: &str) -> (t: CommentType)
    ensures
        t == spec_token_style(s@),
{
    proof {
        reveal_strlit("c");
        reveal_strlit("js");
        reveal_strlit("python");
        reveal_strlit("py");
        reveal_strlit("clj");
        reveal_strlit("lsp");
        reveal_strlit("lisp");
        assert("c"@ =~= seq!['c']);
        assert("js"@ =~= seq!['j', 's']);
        assert("python"@ =~= seq!['p', 'y', 't', 'h', 'o', 'n']);
        assert("py"@ =~= seq!['p', 'y']);
        assert("clj"@ =~= seq!['c', 'l', 'j']);
        assert("lsp"@ =~= seq!['l', 's', 'p']);
        assert("lisp"@ =~= seq!['l', 'i', 's', 'p']);
    }
    if eq_lowered(s, "c") || eq_lowered(s, "js") {
        CommentType::C
    } else if eq_lowered(s, "python") || eq_lowered(s, "py") {
        CommentType::PYTHON
    } else if eq_lowered(s, "clj") || eq_lowered(s, "lsp") || eq_lowered(s, "lisp") {
        CommentType::LISP
    } else {
        CommentType::DEFAULT
    }
}

/// The marker string whose presence, after trimming, makes a line a comment
/// line under the given style.
pub fn comment_type_to_single_line_comment(comment_type: &CommentType) -> (r: &'static str)
    ensures
        r@ == spec_marker(*comment_type),
{
    proof {
        reveal_strlit("//");
        reveal_strlit(";");
        reveal_strlit("#");
        assert("//"@ =~= seq!['/', '/']);
        assert(";"@ =~= seq![';']);
        assert("#"@ =~= seq!['#']);
    }
    match comment_type {
        CommentType::C => "//",
        CommentType::LISP => ";",
        CommentType::PYTHON => "#",
        CommentType::DEFAULT => "//",
    }
}

} // verus!
