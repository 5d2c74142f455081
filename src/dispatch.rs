use vstd::prelude::*;
use vstd::string::StrSliceExecFns;

verus! {

/// The subcommands whose output names paths that are read back on the host:
/// `rev-parse` and `remote`.
pub open spec fn is_translated_command(a: Seq<char>) -> bool {
    a == seq!['r', 'e', 'v', '-', 'p', 'a', 'r', 's', 'e'] || a == seq!['r', 'e', 'm', 'o', 't', 'e']
}

fn same_text(a: &str, b: &str) -> (r: bool)
    ensures
        r == (a@ == b@),
{
    let n = a.unicode_len();
    if n != b.unicode_len() {
        return false;
    }
    let mut i: usize = 0;
    while i < n
        invariant
            i <= n,
            n == a@.len(),
            n == b@.len(),
            forall|j: int| 0 <= j < i ==> a@[j] == b@[j],
        decreases n - i,
    {
        if a.get_char(i) != b.get_char(i) {
            return false;
        }
        i = i + 1;
    }
    assert(a@ == b@);
    true
}

/// Whether the subprocess's output is to be captured and read back: some
/// argument, in any place, is one of the translated subcommands.
pub fn translates_output(args: &Vec<String>) -> (r: bool)
    ensures
        r == exists|i: int| 0 <= i < args@.len() && is_translated_command(#[trigger] args@[i]@),
{
    let rev_parse = "rev-parse";
    let remote = "remote";
    proof {
        reveal_strlit("rev-parse");
        reveal_strlit("remote");
        assert(rev_parse@ =~= seq!['r', 'e', 'v', '-', 'p', 'a', 'r', 's', 'e']);
        assert(remote@ =~= seq!['r', 'e', 'm', 'o', 't', 'e']);
    }
    let mut i: usize = 0;
    while i < args.len()
        invariant
            i <= args@.len(),
            rev_parse@ == seq!['r', 'e', 'v', '-', 'p', 'a', 'r', 's', 'e'],
            remote@ == seq!['r', 'e', 'm', 'o', 't', 'e'],
            forall|j: int| 0 <= j < i ==> !is_translated_command(#[trigger] args@[j]@),
        decreases args@.len() - i,
    {
        let a = args[i].as_str();
        assert(a@ == args@[i as int]@);
        if same_text(a, rev_parse) || same_text(a, remote) {
            assert(is_translated_command(args@[i as int]@));
            return true;
        }
        i = i + 1;
    }
    false
}

} // verus!
