//! Decisions of the output layer: content types, content hashes and entity
//! tags of the files it writes.

use vstd::prelude::*;
use md5::{Digest, Md5};
use crate::text::{hex, push_char, push_hex};

verus! {

/// The MD5 digest of `data`, as the `md-5` crate computes it.
pub uninterp spec fn md5_of(data: Seq<u8>) -> Seq<u8>;

/// `Md5::digest` of the `md-5` crate: the digest of `data`, which has
/// sixteen bytes.
#[verifier::external_body]
fn md5_digest(data: &[u8]) -> (digest: Vec<u8>)
    ensures
        digest@ == md5_of(data@),
        digest@.len() == 16,
{
    Md5::digest(data).to_vec()
}

/// The lower-case form of an ASCII capital; every other character as it
/// is.
pub open spec fn ascii_lower(c: char) -> char {
    if 'A' <= c <= 'Z' {
        ((c as u32) + 32) as char
    } else {
        c
    }
}

/// Whether `a` is `b` with its ASCII capitals in lower case.
pub open spec fn is_lowered(a: Seq<char>, b: Seq<char>) -> bool {
    a.len() == b.len() && forall|i: int| 0 <= i < a.len() ==> a[i] == ascii_lower(#[trigger] b[i])
}

/// The entity tag of content with the given digest: its hexadecimal
/// digits in double quotes.
pub open spec fn tag_of(digest: Seq<u8>) -> Seq<char> {
    seq!['"'] + hex(digest) + seq!['"']
}

/// The entity tag of content with the given digest: its hexadecimal
/// digits in double quotes.
pub fn entity_tag(digest: &[u8]) -> (tag: String)
    ensures
        tag@ == tag_of(digest@),
{
    let mut out = String::new();
    push_char(&mut out, '"');
    push_hex(&mut out, digest);
    push_char(&mut out, '"');
    assert(out@ =~= tag_of(digest@));
    out
}

/// Whether a stored object with entity tag `etag` already holds content
/// with the given digest: the tag, capitals lowered, is the digest's tag.
pub fn tag_matches(digest: &[u8], etag: &str) -> (same: bool)
    ensures
        same == is_lowered(tag_of(digest@), etag@),
{
    let tag = entity_tag(digest);
    let n = tag.as_str().unicode_len();
    if etag.unicode_len() != n {
        return false;
    }
    let mut i: usize = 0;
    while i < n
        invariant
            i <= n,
            n == tag@.len(),
            n == etag@.len(),
            tag@ == tag_of(digest@),
            forall|k: int| 0 <= k < i ==> tag@[k] == ascii_lower(#[trigger] etag@[k]),
        decreases n - i,
    {
        let t = tag.as_str().get_char(i);
        let e = etag.get_char(i);
        let lowered = if 'A' <= e && e <= 'Z' {
            e as u32 + 32 == t as u32
        } else {
            e == t
        };
        if !lowered {
            proof {
                if 'A' <= e <= 'Z' {
                    assert(ascii_lower(e) as u32 == e as u32 + 32);
                }
                assert(tag@[i as int] != ascii_lower(etag@[i as int]));
            }
            return false;
        }
        proof {
            if 'A' <= e <= 'Z' {
                assert(ascii_lower(e) as u32 == e as u32 + 32);
            }
        }
        i += 1;
    }
    true
}

/// Whether uploading `data` can be skipped: the store already has an
/// object under the name, with an entity tag, and the tag is that of
/// `data`'s MD5 digest.
pub fn is_unchanged(data: &Vec<u8>, etag: Option<&String>) -> (skip: bool)
    ensures
        skip == match etag {
            Some(tag) => is_lowered(tag_of(md5_of(data@)), tag@),
            None => false,
        },
{
    match etag {
        Some(tag) => {
            let digest = md5_digest(data.as_slice());
            tag_matches(digest.as_slice(), tag.as_str())
        },
        None => false,
    }
}

/// The short content hash that is recorded for a written file: the
/// hexadecimal digits of the first four bytes of its digest (of all its
/// bytes where it has fewer).
pub fn short_hash(digest: &[u8]) -> (s: String)
    ensures
        digest@.len() >= 4 ==> s@ == hex(digest@.take(4)),
        digest@.len() < 4 ==> s@ == hex(digest@),
{
    let mut out = String::new();
    let mut i: usize = 0;
    let count: usize = if digest.len() < 4 {
        digest.len()
    } else {
        4
    };
    let ghost head = digest@.take(count as int);
    assert(out@ =~= hex(head.take(0)));
    assert(digest@.len() < 4 ==> head =~= digest@);
    while i < count
        invariant
            i <= count,
            count <= digest@.len(),
            head == digest@.take(count as int),
            out@ == hex(head.take(i as int)),
        decreases count - i,
    {
        crate::text::push_hex_byte(&mut out, digest[i]);
        proof {
            assert(head.take(i + 1).drop_last() =~= head.take(i as int));
            assert(out@ =~= hex(head.take(i + 1)));
        }
        i += 1;
    }
    assert(head.take(count as int) =~= head);
    out
}

/// The short content hash of `data`: the first four bytes of its MD5
/// digest in hexadecimal.
pub fn content_hash(data: &Vec<u8>) -> (s: String)
    ensures
        s@ == hex(md5_of(data@).take(4)),
{
    let digest = md5_digest(data.as_slice());
    short_hash(digest.as_slice())
}

/// What follows the last dot of `name`; all of `name` where it has no dot.
pub open spec fn extension(name: Seq<char>) -> Seq<char>
    decreases name.len(),
{
    if name.len() == 0 || name.last() == '.' {
        Seq::empty()
    } else {
        extension(name.drop_last()).push(name.last())
    }
}

/// The content type of a file by the extension of its name.
pub open spec fn mime_of(name: Seq<char>) -> Option<Seq<char>> {
    let ext = extension(name);
    if ext == "html"@ {
        Some("text/html"@)
    } else if ext == "css"@ {
        Some("text/css"@)
    } else if ext == "js"@ {
        Some("text/javascript"@)
    } else if ext == "png"@ {
        Some("image/png"@)
    } else if ext == "json"@ {
        Some("application/json"@)
    } else {
        None
    }
}

/// Whether `name` from index `from` on is the text `word`.
fn tail_is(name: &str, from: usize, word: &str) -> (same: bool)
    requires
        from <= name@.len(),
    ensures
        same == (name@.skip(from as int) == word@),
{
    let n = name.unicode_len();
    let w = word.unicode_len();
    if n - from != w {
        return false;
    }
    let mut i: usize = 0;
    while i < w
        invariant
            i <= w,
            from + w == n,
            n == name@.len(),
            w == word@.len(),
            forall|k: int| 0 <= k < i ==> name@[from + k] == word@[k],
        decreases w - i,
    {
        if name.get_char(from + i) != word.get_char(i) {
            assert(name@.skip(from as int)[i as int] != word@[i as int]);
            return false;
        }
        i += 1;
    }
    assert(name@.skip(from as int) =~= word@);
    true
}

/// `extension` is what follows the last dot.
proof fn lemma_extension(name: Seq<char>, from: int)
    requires
        0 <= from <= name.len(),
        from > 0 ==> name[from - 1] == '.',
        forall|k: int| from <= k < name.len() ==> name[k] != '.',
    ensures
        extension(name) == name.skip(from),
    decreases name.len(),
{
    if name.len() == from {
        assert(name.skip(from) =~= Seq::<char>::empty());
    } else {
        lemma_extension(name.drop_last(), from);
        assert(name.drop_last().skip(from).push(name.last()) =~= name.skip(from));
    }
}

/// The content type of the file `name`, by what follows its last dot:
/// `html`, `css`, `js`, `png` and `json` are known, nothing else is.
pub fn mime_type(name: &str) -> (r: Option<&'static str>)
    ensures
        match r {
            Some(mime) => mime_of(name@) == Some(mime@),
            None => mime_of(name@) is None,
        },
{
    let n = name.unicode_len();
    let mut from: usize = n;
    while from > 0 && name.get_char(from - 1) != '.'
        invariant
            from <= n,
            n == name@.len(),
            forall|k: int| from <= k < n ==> name@[k] != '.',
        decreases from,
    {
        from -= 1;
    }
    proof {
        lemma_extension(name@, from as int);
    }
    if tail_is(name, from, "html") {
        Some("text/html")
    } else if tail_is(name, from, "css") {
        Some("text/css")
    } else if tail_is(name, from, "js") {
        Some("text/javascript")
    } else if tail_is(name, from, "png") {
        Some("image/png")
    } else if tail_is(name, from, "json") {
        Some("application/json")
    } else {
        None
    }
}

} // verus!
