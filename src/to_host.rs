use vstd::prelude::*;

verus! {

/// The bytes that end the path that follows a mount prefix: ASCII
/// whitespace (tab, line feed, vertical tab, form feed, carriage return, space).
pub open spec fn is_space_byte(b: u8) -> bool {
    b == 9 || b == 10 || b == 11 || b == 12 || b == 13 || b == 32
}

pub open spec fn is_ascii_letter_byte(b: u8) -> bool {
    (65 <= b && b <= 90) || (97 <= b && b <= 122)
}

/// `s` holds `/mnt/<letter>/` at index `i`.
pub open spec fn mount_at(s: Seq<u8>, i: int) -> bool {
    &&& 0 <= i
    &&& i + 7 <= s.len()
    &&& s[i] == 47 && s[i + 1] == 109 && s[i + 2] == 110 && s[i + 3] == 116 && s[i + 4] == 47
    &&& is_ascii_letter_byte(s[i + 5])
    &&& s[i + 6] == 47
}

/// The host form of `s` from index `i` on. `in_path` holds while the scan is
/// inside the path that follows a rewritten mount prefix: that path runs to the
/// next whitespace byte and is copied as it is.
pub open spec fn host_text_from(s: Seq<u8>, i: int, in_path: bool) -> Seq<u8>
    decreases s.len() - i,
{
    if i < 0 || i >= s.len() {
        seq![]
    } else if in_path && !is_space_byte(s[i]) {
        seq![s[i]] + host_text_from(s, i + 1, true)
    } else if mount_at(s, i) {
        seq![s[i + 5], 58u8, 47u8] + host_text_from(s, i + 7, true)
    } else {
        seq![s[i]] + host_text_from(s, i + 1, false)
    }
}

/// Every `/mnt/<letter>/<path>` of `s` (the path runs to the next whitespace)
/// rewritten as `<letter>:/<path>`, every other byte kept.
pub open spec fn host_text(s: Seq<u8>) -> Seq<u8> {
    host_text_from(s, 0, false)
}

fn is_space(b: u8) -> (r: bool)
    ensures
        r == is_space_byte(b),
{
    b == 9 || b == 10 || b == 11 || b == 12 || b == 13 || b == 32
}

fn has_mount(s: &[u8], i: usize) -> (r: bool)
    ensures
        r == mount_at(s@, i as int),
{
    if i > s.len() || s.len() - i < 7 {
        return false;
    }
    let l = s[i + 5];
    s[i] == 47 && s[i + 1] == 109 && s[i + 2] == 110 && s[i + 3] == 116 && s[i + 4] == 47
        && ((65 <= l && l <= 90) || (97 <= l && l <= 122)) && s[i + 6] == 47
}

/// Rewrites the POSIX mount paths in subprocess output back to drive-letter
/// paths: `/mnt/d/some/path` becomes `d:/some/path`. Works on raw bytes.
pub fn translate_path_to_win(line: &[u8]) -> (r: Vec<u8>)
    ensures
        r@ == host_text(line@),
{
    let mut out: Vec<u8> = Vec::new();
    let mut i: usize = 0;
    let mut in_path = false;
    while i < line.len()
        invariant
            i <= line.len(),
            out@ + host_text_from(line@, i as int, in_path) == host_text(line@),
        decreases line.len() - i,
    {
        let b = line[i];
        if in_path && !is_space(b) {
            out.push(b);
            i = i + 1;
        } else if has_mount(line, i) {
            out.push(line[i + 5]);
            out.push(58);
            out.push(47);
            i = i + 7;
            in_path = true;
        } else {
            out.push(b);
            i = i + 1;
            in_path = false;
        }
    }
    assert(out@ + seq![] == out@);
    out
}

/// From index `i` on, every mount pattern lies inside the path copied for an
/// earlier match (the scan is in a path and no whitespace comes before it).
pub open spec fn only_copied_mounts(s: Seq<u8>, i: int, in_path: bool) -> bool {
    forall|k: int|
        i <= k && #[trigger] mount_at(s, k) ==> in_path && (forall|w: int|
            i <= w < k ==> !is_space_byte(#[trigger] s[w]))
}

pub proof fn lemma_copied_unchanged(s: Seq<u8>, i: int, in_path: bool)
    requires
        0 <= i <= s.len(),
        only_copied_mounts(s, i, in_path),
    ensures
        host_text_from(s, i, in_path) == s.subrange(i, s.len() as int),
    decreases s.len() - i,
{
    if i < s.len() {
        if in_path && !is_space_byte(s[i]) {
            assert(only_copied_mounts(s, i + 1, true)) by {
                assert forall|k: int| i + 1 <= k && #[trigger] mount_at(s, k) implies (forall|w: int|
                    i + 1 <= w < k ==> !is_space_byte(#[trigger] s[w])) by {
                    assert(forall|w: int| i <= w < k ==> !is_space_byte(#[trigger] s[w]));
                }
            }
            lemma_copied_unchanged(s, i + 1, true);
        } else {
            assert(!mount_at(s, i));
            assert(only_copied_mounts(s, i + 1, false)) by {
                assert forall|k: int| i + 1 <= k && #[trigger] mount_at(s, k) implies false by {
                    assert(i <= i < k);
                }
            }
            lemma_copied_unchanged(s, i + 1, false);
        }
        assert(s.subrange(i, s.len() as int) == seq![s[i]] + s.subrange(i + 1, s.len() as int));
    }
}

/// Text without any `/mnt/<letter>/` comes back byte for byte.
pub proof fn lemma_no_mount_unchanged(s: Seq<u8>)
    requires
        forall|k: int| !#[trigger] mount_at(s, k),
    ensures
        host_text(s) == s,
{
    lemma_copied_unchanged(s, 0, false);
    assert(s.subrange(0, s.len() as int) == s);
}

/// The scan of `p + t` from inside `t` is the scan of `t`.
proof fn lemma_shift(p: Seq<u8>, t: Seq<u8>, j: int, in_path: bool)
    requires
        0 <= j <= t.len(),
    ensures
        host_text_from(p + t, p.len() + j, in_path) == host_text_from(t, j, in_path),
    decreases t.len() - j,
{
    let s = p + t;
    let i = p.len() + j;
    if j < t.len() {
        assert(s[i] == t[j]);
        assert(mount_at(s, i) == mount_at(t, j)) by {
            if j + 7 <= t.len() {
                assert(s[i + 1] == t[j + 1] && s[i + 2] == t[j + 2] && s[i + 3] == t[j + 3]);
                assert(s[i + 4] == t[j + 4] && s[i + 5] == t[j + 5] && s[i + 6] == t[j + 6]);
            }
        }
        if !(in_path && !is_space_byte(s[i])) && mount_at(s, i) {
            assert(s[i + 5] == t[j + 5]);
            lemma_shift(p, t, j + 7, true);
        } else {
            lemma_shift(p, t, j + 1, in_path && !is_space_byte(s[i]));
        }
    }
}

/// The scan of `a + [w] + b`, `w` a whitespace byte, up to `w` is the scan of `a`.
proof fn lemma_split_prefix(a: Seq<u8>, w: u8, b: Seq<u8>, i: int, in_path: bool)
    requires
        is_space_byte(w),
        0 <= i <= a.len(),
    ensures
        host_text_from(a + seq![w] + b, i, in_path) == host_text_from(a, i, in_path) + seq![w]
            + host_text(b),
    decreases a.len() - i,
{
    let s = a + seq![w] + b;
    let n = a.len() as int;
    if i == n {
        assert(s[n] == w);
        assert(!mount_at(s, n));
        lemma_shift(a + seq![w], b, 0, false);
        assert((a + seq![w]).len() == n + 1);
        assert(s == (a + seq![w]) + b);
    } else {
        assert(s[i] == a[i]);
        assert(mount_at(s, i) == mount_at(a, i)) by {
            if mount_at(s, i) && i + 7 > n {
                let k = n - i;
                assert(1 <= k <= 6);
                assert(s[i + k] == w);
            }
            if i + 7 <= n {
                assert(s[i + 1] == a[i + 1] && s[i + 2] == a[i + 2] && s[i + 3] == a[i + 3]);
                assert(s[i + 4] == a[i + 4] && s[i + 5] == a[i + 5] && s[i + 6] == a[i + 6]);
            }
        }
        if !(in_path && !is_space_byte(s[i])) && mount_at(s, i) {
            assert(s[i + 5] == a[i + 5]);
            lemma_split_prefix(a, w, b, i + 7, true);
            assert(seq![a[i + 5], 58u8, 47u8] + (host_text_from(a, i + 7, true) + seq![w] + host_text(b))
                == (seq![a[i + 5], 58u8, 47u8] + host_text_from(a, i + 7, true)) + seq![w] + host_text(b));
        } else {
            let np = in_path && !is_space_byte(s[i]);
            lemma_split_prefix(a, w, b, i + 1, np);
            assert(seq![a[i]] + (host_text_from(a, i + 1, np) + seq![w] + host_text(b))
                == (seq![a[i]] + host_text_from(a, i + 1, np)) + seq![w] + host_text(b));
        }
    }
}

/// Lines are rewritten independently: the text on each side of a line feed
/// (or any other whitespace byte) is rewritten as if it stood alone.
pub proof fn lemma_lines_independent(a: Seq<u8>, w: u8, b: Seq<u8>)
    requires
        is_space_byte(w),
    ensures
        host_text(a + seq![w] + b) == host_text(a) + seq![w] + host_text(b),
{
    lemma_split_prefix(a, w, b, 0, false);
}

} // verus!
