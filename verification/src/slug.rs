//! Slugification of file names into identifier fragments.
//!
//! A file base name becomes a case name by replacing every character that
//! may not stand in an identifier with an underscore.  The extension of a
//! file name (everything from the last dot on, when that dot is not the
//! leading character) is stripped first.

use vstd::prelude::*;
use crate::strutil::push_char;

verus! {

/// A character that may stand in an identifier fragment: an ASCII letter,
/// an ASCII digit, or an underscore.
pub open spec fn is_ident_char(c: char) -> bool {
    ('a' as u32 <= c as u32 && c as u32 <= 'z' as u32)
    || ('A' as u32 <= c as u32 && c as u32 <= 'Z' as u32)
    || ('0' as u32 <= c as u32 && c as u32 <= '9' as u32)
    || c == '_'
}

/// The character a slug keeps for `c`: `c` itself when it may stand in an
/// identifier, an underscore otherwise.
pub open spec fn slug_char(c: char) -> char {
    if is_ident_char(c) {
        c
    } else {
        '_'
    }
}

/// The slug of a name: every character replaced by its slug character.
pub open spec fn slug_of(s: Seq<char>) -> Seq<char> {
    s.map_values(|c: char| slug_char(c))
}

/// Whether `c` may stand in an identifier fragment.
pub fn ident_char(c: char) -> (r: bool)
    ensures
        r == is_ident_char(c),
{
    let u: u32 = c as u32;
    ('a' as u32 <= u && u <= 'z' as u32)
    || ('A' as u32 <= u && u <= 'Z' as u32)
    || ('0' as u32 <= u && u <= '9' as u32)
    || u == '_' as u32
}

/// Replaces every character of `s` that may not stand in an identifier
/// with an underscore.  The result is exactly `slug_of(s@)`, so the slug
/// depends on the characters of `s` alone.
pub fn slugify(s: &str) -> (r: String)
    ensures
        r@ == slug_of(s@),
{
    let len: usize = s.unicode_len();
    let mut out = String::new();
    let mut i: usize = 0;
    while i < len
        invariant
            len == s@.len(),
            i <= len,
            out@ == slug_of(s@.take(i as int)),
        decreases len - i,
    {
        let c = s.get_char(i);
        let d = if ident_char(c) {
            c
        } else {
            '_'
        };
        push_char(&mut out, d);
        proof {
            assert(slug_of(s@.take(i + 1)) =~= slug_of(s@.take(i as int)).push(slug_char(s@[i as int])));
        }
        i = i + 1;
    }
    proof {
        assert(s@.take(len as int) =~= s@);
    }
    out
}

/// Taking the slug of a slug changes nothing: every character a slug
/// keeps may already stand in an identifier.
pub proof fn lemma_slug_char_idempotent(c: char)
    ensures
        slug_char(slug_char(c)) == slug_char(c),
{
}

/// Slugification is idempotent: `slug_of(slug_of(s)) == slug_of(s)`.
pub proof fn lemma_slug_idempotent(s: Seq<char>)
    ensures
        slug_of(slug_of(s)) == slug_of(s),
{
    assert(slug_of(slug_of(s)) =~= slug_of(s)) by {
        assert forall|i: int| 0 <= i < s.len() implies slug_of(slug_of(s))[i] == slug_of(s)[i] by {
            lemma_slug_char_idempotent(s[i]);
        }
    }
}

/// Slugification is deterministic: the slug is a function of the
/// characters of the name alone.
pub proof fn lemma_slug_deterministic(a: Seq<char>, b: Seq<char>)
    requires
        a == b,
    ensures
        slug_of(a) == slug_of(b),
{
}

/// The position of the last dot of `s`, if `s` holds one.
pub open spec fn last_dot(s: Seq<char>) -> Option<int>
    decreases s.len(),
{
    if s.len() == 0 {
        Option::None
    } else if s[s.len() - 1] == '.' {
        Option::Some(s.len() - 1)
    } else {
        last_dot(s.drop_last())
    }
}

/// The base name of a file name: everything before the last dot, unless
/// that dot is the leading character (a purely leading dot marks a hidden
/// file, not an extension) or there is no dot at all.
pub open spec fn spec_base_name(s: Seq<char>) -> Seq<char> {
    match last_dot(s) {
        Option::Some(i) => if i > 0 {
            s.take(i)
        } else {
            s
        },
        Option::None => s,
    }
}

/// The case name derived from a file name: the slug of its base name.
pub open spec fn spec_case_name(fname: Seq<char>) -> Seq<char> {
    slug_of(spec_base_name(fname))
}

/// `last_dot` finds a dot with nothing but non-dots after it, and finds
/// nothing only when `s` holds no dot.
pub proof fn lemma_last_dot_sound(s: Seq<char>)
    ensures
        match last_dot(s) {
            Option::Some(i) => 0 <= i < s.len() && s[i] == '.'
                && (forall|k: int| i < k < s.len() ==> s[k] != '.'),
            Option::None => forall|k: int| 0 <= k < s.len() ==> s[k] != '.',
        },
    decreases s.len(),
{
    if s.len() > 0 && s[s.len() - 1] != '.' {
        lemma_last_dot_sound(s.drop_last());
        let t = s.drop_last();
        assert(forall|k: int| 0 <= k < t.len() ==> t[k] == s[k]);
        match last_dot(t) {
            Option::Some(i) => {
                assert forall|k: int| i < k < s.len() implies s[k] != '.' by {
                    if k < s.len() - 1 {
                        assert(t[k] != '.');
                    }
                }
            },
            Option::None => {
                assert forall|k: int| 0 <= k < s.len() implies s[k] != '.' by {
                    if k < s.len() - 1 {
                        assert(t[k] != '.');
                    }
                }
            },
        }
    }
}

/// A dot with no dot after it is the dot that `last_dot` finds.
pub proof fn lemma_last_dot_complete(s: Seq<char>, i: int)
    requires
        0 <= i < s.len(),
        s[i] == '.',
        forall|k: int| i < k < s.len() ==> s[k] != '.',
    ensures
        last_dot(s) == Option::<int>::Some(i),
    decreases s.len(),
{
    if i < s.len() - 1 {
        lemma_last_dot_complete(s.drop_last(), i);
    }
}

/// Strips the extension of a file name, when it has one.
pub fn base_name(s: &str) -> (r: String)
    ensures
        r@ == spec_base_name(s@),
{
    let len: usize = s.unicode_len();
    let mut i: usize = 0;
    let mut dot: usize = 0;
    let mut has_dot: bool = false;
    while i < len
        invariant
            len == s@.len(),
            i <= len,
            has_dot ==> dot < i && s@[dot as int] == '.'
                && (forall|k: int| dot < k < i ==> s@[k] != '.'),
            !has_dot ==> forall|k: int| 0 <= k < i ==> s@[k] != '.',
        decreases len - i,
    {
        if s.get_char(i) == '.' {
            dot = i;
            has_dot = true;
        }
        i = i + 1;
    }
    proof {
        if has_dot {
            lemma_last_dot_complete(s@, dot as int);
        } else {
            lemma_last_dot_sound(s@);
            if last_dot(s@) is Some {
                let j = last_dot(s@)->Some_0;
                assert(s@[j] == '.');
            }
        }
    }
    if has_dot && dot > 0 {
        let sub = s.substring_char(0, dot);
        sub.to_owned()
    } else {
        s.to_owned()
    }
}

/// The case name for a file name: its base name slugified.
pub fn case_name_of(fname: &str) -> (r: String)
    ensures
        r@ == spec_case_name(fname@),
{
    let base = base_name(fname);
    slugify(base.as_str())
}

} // verus!
