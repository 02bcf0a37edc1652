//! Paths and file names.

use vstd::prelude::*;
use vstd::string::*;
use vstd::utf8::encode_utf8;

use crate::text::{cat, cat3, chars_of, text_between, Text};

verus! {

/// `rest` below `base`: `rest` itself where it is absolute, else both with one separator added
/// where `base` is not empty and does not end in one.
pub open spec fn joined_path(base: Text, rest: Text) -> Text {
    if rest.len() > 0 && rest[0] == '/' {
        rest
    } else if base.len() == 0 || base.last() == '/' {
        base + rest
    } else {
        base + "/"@ + rest
    }
}

/// `rest` below `base`.
pub fn join_path(base: &str, rest: &str) -> (r: String)
    ensures
        r@ == joined_path(base@, rest@),
{
    let b: Vec<char> = chars_of(base);
    let t: Vec<char> = chars_of(rest);
    if t.len() > 0 && t[0] == '/' {
        rest.to_string()
    } else if b.len() == 0 || b[b.len() - 1] == '/' {
        cat(base, rest)
    } else {
        cat3(base, "/", rest)
    }
}

/// Where the last dot of a file name is, or one place before its beginning.
pub open spec fn last_dot(name: Seq<u8>) -> int
    decreases name.len(),
{
    if name.len() == 0 {
        -1
    } else if name.last() == 46 {
        name.len() - 1
    } else {
        last_dot(name.drop_last())
    }
}

/// The extension of a file name that a directory lists: what follows its last dot, unless that
/// is its first character.
pub open spec fn extension(name: Seq<u8>) -> Option<Seq<u8>> {
    if last_dot(name) <= 0 {
        None
    } else {
        Some(name.skip(last_dot(name) + 1))
    }
}

/// Whether the extension of `name` is `ext`.
pub open spec fn has_extension(name: Seq<u8>, ext: Text) -> bool {
    extension(name) == Some(encode_utf8(ext))
}

pub proof fn lemma_last_dot(name: Seq<u8>)
    ensures
        -1 <= last_dot(name) < name.len(),
        last_dot(name) >= 0 ==> name[last_dot(name)] == 46,
        forall|i: int| last_dot(name) < i < name.len() ==> name[i] != 46,
    decreases name.len(),
{
    if name.len() > 0 && name.last() != 46 {
        lemma_last_dot(name.drop_last());
        assert forall|i: int| last_dot(name) < i < name.len() implies name[i] != 46 by {
            if i < name.len() - 1 {
                assert(name[i] == name.drop_last()[i]);
            }
        }
    }
}

/// Whether the extension of the file name `name` is `ext`.
pub fn extension_is(name: &Vec<u8>, ext: &str) -> (r: bool)
    ensures
        r == has_extension(name@, ext@),
{
    let e: &[u8] = ext.as_bytes();
    let mut dot: usize = name.len();
    proof {
        assert(name@.take(dot as int) =~= name@);
    }
    while dot > 0 && name[dot - 1] != 46
        invariant
            0 <= dot <= name@.len(),
            last_dot(name@.take(dot as int)) == last_dot(name@),
        decreases dot,
    {
        proof {
            assert(name@.take(dot as int).drop_last() =~= name@.take(dot - 1));
        }
        dot -= 1;
    }
    proof {
        assert(last_dot(name@) == dot - 1);
    }
    if dot <= 1 {
        return false;
    }
    let ghost tail = name@.skip(dot as int);
    if name.len() - dot != e.len() {
        proof {
            assert(tail.len() != e@.len());
        }
        return false;
    }
    let mut i: usize = 0;
    let n: usize = name.len();
    while i < e.len()
        invariant
            0 <= i <= e@.len(),
            n == name@.len(),
            dot + e@.len() == n,
            tail == name@.skip(dot as int),
            e@ == encode_utf8(ext@),
            extension(name@) == Some(tail),
            forall|j: int| 0 <= j < i ==> tail[j] == e@[j],
        decreases e@.len() - i,
    {
        if name[dot + i] != e[i] {
            proof {
                assert(tail[i as int] != e@[i as int]);
            }
            return false;
        }
        i += 1;
    }
    proof {
        assert(tail =~= e@);
    }
    true
}

/// Where the last dot of a text is, or one place before its beginning.
pub open spec fn last_dot_of(name: Text) -> int
    decreases name.len(),
{
    if name.len() == 0 {
        -1
    } else if name.last() == '.' {
        name.len() - 1
    } else {
        last_dot_of(name.drop_last())
    }
}

/// The file name without its extension: what is before its last dot, unless that is its first
/// character.
pub open spec fn file_stem(name: Text) -> Text {
    if last_dot_of(name) <= 0 {
        name
    } else {
        name.take(last_dot_of(name))
    }
}

/// The file name without its extension.
pub fn stem_of(name: &str) -> (r: String)
    ensures
        r@ == file_stem(name@),
{
    let v: Vec<char> = chars_of(name);
    let mut dot: usize = v.len();
    proof {
        assert(v@.take(dot as int) =~= v@);
    }
    while dot > 0 && v[dot - 1] != '.'
        invariant
            0 <= dot <= v@.len(),
            last_dot_of(v@.take(dot as int)) == last_dot_of(v@),
        decreases dot,
    {
        proof {
            assert(v@.take(dot as int).drop_last() =~= v@.take(dot - 1));
        }
        dot -= 1;
    }
    proof {
        assert(last_dot_of(v@) == dot - 1);
    }
    if dot <= 1 {
        name.to_string()
    } else {
        text_between(&v, 0, dot - 1)
    }
}

} // verus!
