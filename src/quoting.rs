use vstd::prelude::*;
use vstd::string::{StrSliceExecFns, StringExecFns};
use crate::text::push_char;

verus! {

/// What a line feed becomes on the POSIX side: `$'\n'`, an ANSI-C quoted newline.
pub open spec fn quoted_newline() -> Seq<char> {
    seq!['$', '\'', '\\', 'n', '\'']
}

/// `a` with every line feed replaced by `$'\n'`.
pub open spec fn newlines_quoted(a: Seq<char>) -> Seq<char>
    decreases a.len(),
{
    if a.len() == 0 {
        seq![]
    } else if a.last() == '\n' {
        newlines_quoted(a.drop_last()) + quoted_newline()
    } else {
        newlines_quoted(a.drop_last()).push(a.last())
    }
}

/// An argument made ready for a composed command line: its line feeds
/// quoted, and the whole in double quotes when it holds a space.
pub open spec fn escaped(a: Seq<char>) -> Seq<char> {
    if a.contains(' ') {
        seq!['"'] + newlines_quoted(a) + seq!['"']
    } else {
        newlines_quoted(a)
    }
}

/// `s` without its first and last character when it starts with a double
/// quote (and has a second character); else `s` itself.
pub open spec fn unquoted(s: Seq<char>) -> Seq<char> {
    if s.len() >= 2 && s[0] == '"' {
        s.subrange(1, s.len() - 1)
    } else {
        s
    }
}

/// Escapes an argument for a composed command line. Only spaces and line
/// feeds are handled: quotes inside the argument are not escaped.
pub fn shell_escape(arg: String) -> (r: String)
    ensures
        r@ == escaped(arg@),
{
    let n = arg.as_str().unicode_len();
    let mut body = String::new();
    let mut space = false;
    let mut i: usize = 0;
    while i < n
        invariant
            i <= n,
            n == arg@.len(),
            body@ == newlines_quoted(arg@.subrange(0, i as int)),
            space == arg@.subrange(0, i as int).contains(' '),
        decreases n - i,
    {
        let c = arg.as_str().get_char(i);
        let ghost pre = arg@.subrange(0, i as int);
        proof {
            assert(arg@.subrange(0, i + 1).drop_last() == pre);
            assert(arg@.subrange(0, i + 1) == pre.push(c));
            if pre.push(c).contains(' ') {
                let k = choose|k: int| 0 <= k < pre.push(c).len() && pre.push(c)[k] == ' ';
                if k < pre.len() {
                    assert(pre[k] == ' ');
                }
            }
            if pre.contains(' ') {
                let k = choose|k: int| 0 <= k < pre.len() && pre[k] == ' ';
                assert(pre.push(c)[k] == ' ');
            }
            if c == ' ' {
                assert(pre.push(c)[pre.len() as int] == ' ');
            }
        }
        if c == '\n' {
            push_char(&mut body, '$');
            push_char(&mut body, '\'');
            push_char(&mut body, '\\');
            push_char(&mut body, 'n');
            push_char(&mut body, '\'');
        } else {
            push_char(&mut body, c);
        }
        if c == ' ' {
            space = true;
        }
        i = i + 1;
    }
    proof {
        assert(arg@.subrange(0, n as int) == arg@);
    }
    if space {
        let mut r = String::new();
        push_char(&mut r, '"');
        r.append(body.as_str());
        push_char(&mut r, '"');
        r
    } else {
        body
    }
}

/// Strips the double quotes round a previously quoted token. The closing
/// character is dropped without a check that it is a quote.
pub fn unquote(s: String) -> (r: String)
    ensures
        r@ == unquoted(s@),
{
    let n = s.as_str().unicode_len();
    if n >= 2 && s.as_str().get_char(0) == '"' {
        String::from_str(s.as_str().substring_char(1, n - 1))
    } else {
        s
    }
}

proof fn lemma_newlines_quoted_plain(a: Seq<char>)
    ensures
        !a.contains('\n') ==> newlines_quoted(a) == a,
        !newlines_quoted(a).contains('\n'),
    decreases a.len(),
{
    if a.len() > 0 {
        let p = a.drop_last();
        lemma_newlines_quoted_plain(p);
        if !a.contains('\n') {
            assert(!p.contains('\n')) by {
                if p.contains('\n') {
                    let k = choose|k: int| 0 <= k < p.len() && p[k] == '\n';
                    assert(a[k] == '\n');
                }
            }
            assert(a[a.len() - 1] != '\n');
            assert(p.push(a.last()) == a);
        }
        let r = newlines_quoted(a);
        let q = newlines_quoted(p);
        if r.contains('\n') {
            let k = choose|k: int| 0 <= k < r.len() && r[k] == '\n';
            if k < q.len() {
                assert(q[k] == '\n');
            }
        }
    }
}

proof fn lemma_newlines_quoted_concat(a: Seq<char>, b: Seq<char>)
    ensures
        newlines_quoted(a + b) == newlines_quoted(a) + newlines_quoted(b),
    decreases b.len(),
{
    if b.len() == 0 {
        assert(a + b == a);
    } else {
        lemma_newlines_quoted_concat(a, b.drop_last());
        assert((a + b).drop_last() == a + b.drop_last());
        assert((a + b).last() == b.last());
    }
}

/// Escaping keeps an argument without spaces or line feeds as it is, puts
/// one that holds a space in double quotes, and replaces each line feed by
/// `$'\n'` whether or not it quotes, so that no line feed is left.
pub proof fn lemma_escape_laws(a: Seq<char>, b: Seq<char>)
    ensures
        !a.contains(' ') && !a.contains('\n') ==> escaped(a) == a,
        a.contains(' ') ==> escaped(a) == seq!['"'] + newlines_quoted(a) + seq!['"'],
        newlines_quoted(a + seq!['\n'] + b) == newlines_quoted(a) + quoted_newline()
            + newlines_quoted(b),
        !escaped(a).contains('\n'),
{
    lemma_newlines_quoted_plain(a);
    lemma_newlines_quoted_concat(a + seq!['\n'], b);
    lemma_newlines_quoted_concat(a, seq!['\n']);
    assert(seq!['\n'].drop_last() == Seq::<char>::empty());
    assert(newlines_quoted(seq!['\n']) == newlines_quoted(Seq::<char>::empty()) + quoted_newline());
    let r = escaped(a);
    let q = newlines_quoted(a);
    if r.contains('\n') && a.contains(' ') {
        let k = choose|k: int| 0 <= k < r.len() && r[k] == '\n';
        assert(k != 0 && k != r.len() - 1);
        assert(q[k - 1] == '\n');
    }
}

} // verus!
