//! Paths are held as text, with `/` between their components.
use vstd::prelude::*;

verus! {

/// The index of the last `/` in `s`, or -1 where there is none.
pub open spec fn last_slash(s: Seq<char>) -> int
    decreases s.len(),
{
    if s.len() == 0 {
        -1
    } else if s.last() == '/' {
        s.len() - 1
    } else {
        last_slash(s.drop_last())
    }
}

/// The last component of a path: what follows its last `/`.
pub open spec fn base_name(s: Seq<char>) -> Seq<char> {
    s.subrange(last_slash(s) + 1, s.len() as int)
}

/// The directory part of a path: what precedes its last `/` (empty where
/// there is no `/`, and `/` itself for an entry of the root).
pub open spec fn dir_name(s: Seq<char>) -> Seq<char> {
    if last_slash(s) < 0 {
        Seq::empty()
    } else if last_slash(s) == 0 {
        seq!['/']
    } else {
        s.subrange(0, last_slash(s))
    }
}

/// `b` below directory `a`; an empty `a` stands for the current directory,
/// and no `/` is added after one that ends `a`.
pub open spec fn join(a: Seq<char>, b: Seq<char>) -> Seq<char> {
    if a.len() == 0 {
        b
    } else if a.last() == '/' {
        a + b
    } else {
        a + seq!['/'] + b
    }
}

pub proof fn lemma_last_slash_bounds(s: Seq<char>)
    ensures
        -1 <= last_slash(s) < s.len(),
        last_slash(s) >= 0 ==> s[last_slash(s)] == '/',
        forall|j: int| last_slash(s) < j < s.len() ==> s[j] != '/',
    decreases s.len(),
{
    if s.len() > 0 && s.last() != '/' {
        lemma_last_slash_bounds(s.drop_last());
        assert forall|j: int| last_slash(s) < j < s.len() implies s[j] != '/' by {
            if j < s.len() - 1 {
                assert(s[j] == s.drop_last()[j]);
            }
        }
    }
}

/// The index of the last `/` in `s`, if any.
pub fn find_last_slash(s: &str) -> (r: Option<usize>)
    ensures
        match r {
            Some(i) => i as int == last_slash(s@),
            None => last_slash(s@) == -1,
        },
{
    let n = s.unicode_len();
    let mut i: usize = n;
    assert(s@.subrange(0, n as int) =~= s@);
    while i > 0
        invariant
            i <= n == s@.len(),
            last_slash(s@) == last_slash(s@.subrange(0, i as int)),
        decreases i,
    {
        assert(s@.subrange(0, i as int).drop_last() =~= s@.subrange(0, i - 1));
        if s.get_char(i - 1) == '/' {
            return Some(i - 1);
        }
        i = i - 1;
    }
    assert(s@.subrange(0, 0) =~= Seq::<char>::empty());
    None
}

/// The last component of a path.
pub fn file_name(s: &str) -> (r: String)
    ensures
        r@ == base_name(s@),
{
    proof {
        lemma_last_slash_bounds(s@);
    }
    let n = s.unicode_len();
    match find_last_slash(s) {
        Some(i) => String::from_str(s.substring_char(i + 1, n)),
        None => {
            assert(s@.subrange(0, s@.len() as int) =~= s@);
            String::from_str(s)
        },
    }
}

/// The directory part of a path.
pub fn parent_name(s: &str) -> (r: String)
    ensures
        r@ == dir_name(s@),
{
    proof {
        lemma_last_slash_bounds(s@);
    }
    match find_last_slash(s) {
        Some(i) => if i == 0 {
            proof {
                reveal_strlit("/");
            }
            assert("/"@ =~= seq!['/']);
            String::from_str("/")
        } else {
            String::from_str(s.substring_char(0, i))
        },
        None => {
            proof {
                reveal_strlit("");
            }
            String::from_str("")
        },
    }
}

/// Joins `b` below directory `a`.
pub fn join_path(a: &str, b: &str) -> (r: String)
    ensures
        r@ == join(a@, b@),
{
    let n = a.unicode_len();
    if n == 0 {
        String::from_str(b)
    } else if a.get_char(n - 1) == '/' {
        String::from_str(a).concat(b)
    } else {
        proof {
            reveal_strlit("/");
        }
        let r = String::from_str(a).concat("/").concat(b);
        r
    }
}

} // verus!
