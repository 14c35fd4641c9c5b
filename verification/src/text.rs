//! Characters of a path: extraction, lexical order, and the file-extension
//! allow-list test that decides which directory entries join a catalog.

use vstd::prelude::*;

verus! {

broadcast use vstd::string::axiom_spec_iter;

/// The characters of a string slice, as an owned vector.
pub fn chars_vec(s: &str) -> (r: Vec<char>)
    ensures
        r@ == s@,
{
    let mut r: Vec<char> = Vec::new();
    for c in it: s.chars()
        invariant
            it.seq() == s@,
            r@ == it.seq().subrange(0, it.index() as int),
    {
        r.push(c);
    }
    proof {
        assert(r@ =~= s@);
    }
    r
}

/// Lexicographic order on character sequences, by code point: the empty
/// sequence comes first, otherwise the first differing position decides.
pub open spec fn lex_le(a: Seq<char>, b: Seq<char>) -> bool
    decreases a.len(),
{
    if a.len() == 0 {
        true
    } else if b.len() == 0 {
        false
    } else if (a[0] as u32) < (b[0] as u32) {
        true
    } else if (a[0] as u32) > (b[0] as u32) {
        false
    } else {
        lex_le(a.skip(1), b.skip(1))
    }
}

/// Any two character sequences are ordered one way or the other.
pub proof fn lemma_lex_le_total(a: Seq<char>, b: Seq<char>)
    ensures
        lex_le(a, b) || lex_le(b, a),
    decreases a.len(),
{
    if a.len() == 0 {
    } else if b.len() == 0 {
    } else if (a[0] as u32) == (b[0] as u32) {
        lemma_lex_le_total(a.skip(1), b.skip(1));
    }
}

/// Lexicographic order is transitive.
pub proof fn lemma_lex_le_trans(a: Seq<char>, b: Seq<char>, c: Seq<char>)
    requires
        lex_le(a, b),
        lex_le(b, c),
    ensures
        lex_le(a, c),
    decreases a.len(),
{
    if a.len() == 0 {
    } else {
        if (a[0] as u32) == (b[0] as u32) && (b[0] as u32) == (c[0] as u32) {
            lemma_lex_le_trans(a.skip(1), b.skip(1), c.skip(1));
        }
    }
}

/// Decides `lex_le` on two character vectors.
pub fn lex_le_chars(a: &Vec<char>, b: &Vec<char>) -> (r: bool)
    ensures
        r == lex_le(a@, b@),
{
    let mut i: usize = 0;
    proof {
        assert(a@.skip(0) =~= a@);
        assert(b@.skip(0) =~= b@);
    }
    while i < a.len() && i < b.len()
        invariant
            i <= a@.len(),
            i <= b@.len(),
            lex_le(a@, b@) == lex_le(a@.skip(i as int), b@.skip(i as int)),
        decreases a@.len() - i,
    {
        let ca = a[i] as u32;
        let cb = b[i] as u32;
        if ca < cb {
            return true;
        }
        if ca > cb {
            return false;
        }
        proof {
            assert(a@.skip(i as int).skip(1) =~= a@.skip(i as int + 1));
            assert(b@.skip(i as int).skip(1) =~= b@.skip(i as int + 1));
        }
        i = i + 1;
    }
    proof {
        if i == a@.len() {
            assert(a@.skip(i as int).len() == 0);
        } else {
            assert(b@.skip(i as int).len() == 0);
            assert(a@.skip(i as int).len() > 0);
        }
    }
    a.len() <= b.len()
}

/// The extension of a path: the characters after the last `.` of the last
/// `/`-separated segment, or nothing when that segment holds no dot.  A
/// segment whose only dot is its first character counts as having an
/// extension here (`.mp4` has extension `mp4`), unlike std's
/// `Path::extension`, which treats such a name as a dot-file without one.
pub open spec fn extension_of(p: Seq<char>) -> Option<Seq<char>>
    decreases p.len(),
{
    if p.len() == 0 {
        None
    } else if p.last() == '.' {
        Some(Seq::<char>::empty())
    } else if p.last() == '/' {
        None
    } else {
        match extension_of(p.drop_last()) {
            Some(e) => Some(e.push(p.last())),
            None => None,
        }
    }
}

/// The views of a sequence of owned strings.
pub open spec fn str_views(v: Seq<String>) -> Seq<Seq<char>> {
    v.map_values(|s: String| s@)
}

/// A path qualifies when it has an extension and that extension is in the
/// allow-list.
pub open spec fn ext_allowed(p: Seq<char>, exts: Seq<Seq<char>>) -> bool {
    match extension_of(p) {
        Some(e) => exists|j: int| 0 <= j < exts.len() && exts[j] == e,
        None => false,
    }
}

proof fn lemma_ext_found(p: Seq<char>, i: int)
    requires
        0 < i <= p.len(),
        p[i - 1] == '.',
        forall|k: int| i <= k < p.len() ==> p[k] != '.' && p[k] != '/',
    ensures
        extension_of(p) == Some(p.subrange(i, p.len() as int)),
    decreases p.len() - i,
{
    if i == p.len() {
        assert(p.subrange(i, p.len() as int) =~= Seq::<char>::empty());
    } else {
        lemma_ext_found(p.drop_last(), i);
        assert(p.subrange(i, p.len() as int) =~= p.drop_last().subrange(
            i,
            p.len() - 1,
        ).push(p.last()));
    }
}

proof fn lemma_ext_none(p: Seq<char>, i: int)
    requires
        0 <= i <= p.len(),
        i == 0 || p[i - 1] == '/',
        forall|k: int| i <= k < p.len() ==> p[k] != '.' && p[k] != '/',
    ensures
        extension_of(p) is None,
    decreases p.len() - i,
{
    if p.len() == 0 {
    } else if i == p.len() {
    } else {
        lemma_ext_none(p.drop_last(), i);
    }
}

/// The extension of a path held as a character vector, as `extension_of`
/// gives it.
fn extension_chars(p: &Vec<char>) -> (r: Option<Vec<char>>)
    ensures
        (match r {
            Some(e) => extension_of(p@) == Some(e@),
            None => extension_of(p@) is None,
        }),
{
    let mut i: usize = p.len();
    while i > 0
        invariant
            i <= p@.len(),
            forall|k: int| i <= k < p@.len() ==> p@[k] != '.' && p@[k] != '/',
        decreases i,
    {
        if p[i - 1] == '.' {
            let mut e: Vec<char> = Vec::new();
            let mut k: usize = i;
            while k < p.len()
                invariant
                    i <= k <= p@.len(),
                    e@ == p@.subrange(i as int, k as int),
                decreases p@.len() - k,
            {
                proof {
                    assert(p@.subrange(i as int, k as int).push(p@[k as int]) =~= p@.subrange(
                        i as int,
                        k as int + 1,
                    ));
                }
                e.push(p[k]);
                k = k + 1;
            }
            proof {
                lemma_ext_found(p@, i as int);
            }
            return Some(e);
        }
        if p[i - 1] == '/' {
            proof {
                lemma_ext_none(p@, i as int);
            }
            return None;
        }
        i = i - 1;
    }
    proof {
        lemma_ext_none(p@, 0);
    }
    None
}

/// Compares two character vectors for equality.
fn chars_eq(a: &Vec<char>, b: &Vec<char>) -> (r: bool)
    ensures
        r == (a@ == b@),
{
    if a.len() != b.len() {
        return false;
    }
    let mut i: usize = 0;
    while i < a.len()
        invariant
            a@.len() == b@.len(),
            i <= a@.len(),
            forall|k: int| 0 <= k < i ==> a@[k] == b@[k],
        decreases a@.len() - i,
    {
        if a[i] != b[i] {
            return false;
        }
        i = i + 1;
    }
    proof {
        assert(a@ =~= b@);
    }
    true
}

/// Does the path carry an extension from the channel's allow-list?
pub fn include_file_extension(config: &crate::media::ChannelConfig, path: &str) -> (r: bool)
    ensures
        r == ext_allowed(path@, str_views(config.extensions@)),
{
    let pc = chars_vec(path);
    let ext = match extension_chars(&pc) {
        Some(e) => e,
        None => {
            return false;
        },
    };
    let mut j: usize = 0;
    while j < config.extensions.len()
        invariant
            j <= config.extensions@.len(),
            extension_of(path@) == Some(ext@),
            forall|k: int| 0 <= k < j ==> str_views(config.extensions@)[k] != ext@,
        decreases config.extensions@.len() - j,
    {
        let cand = chars_vec(config.extensions[j].as_str());
        if chars_eq(&cand, &ext) {
            proof {
                assert(str_views(config.extensions@)[j as int] == ext@);
            }
            return true;
        }
        j = j + 1;
    }
    false
}

} // verus!
