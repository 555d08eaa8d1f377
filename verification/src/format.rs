use vstd::prelude::*;
use vstd::string::StrSliceExecFns;

use crate::strutil::str_eq;

verus! {

/// The encoding used to write the final image; JPEG carries its quality.
#[derive(Clone, Copy, Debug, PartialEq, Eq, Structural)]
pub enum OutFormat {
    Png,
    Jpeg(u8),
    Bmp,
    Gif,
    Ico,
}

/// The characters after the last `.` of `s`; the whole of `s` when it holds
/// no `.` at all.
pub open spec fn after_last_dot(s: Seq<char>) -> Seq<char>
    decreases s.len(),
{
    if s.len() == 0 {
        s
    } else if s[s.len() - 1] == '.' {
        Seq::empty()
    } else {
        after_last_dot(s.drop_last()).push(s[s.len() - 1])
    }
}

/// The encoding that a file extension selects: the five known extensions map
/// to their encodings, JPEG at full quality; anything else falls back to PNG.
pub open spec fn format_of_extension(ext: Seq<char>) -> OutFormat {
    if ext == "png"@ {
        OutFormat::Png
    } else if ext == "jpg"@ || ext == "jpeg"@ {
        OutFormat::Jpeg(100u8)
    } else if ext == "bmp"@ {
        OutFormat::Bmp
    } else if ext == "gif"@ {
        OutFormat::Gif
    } else if ext == "ico"@ {
        OutFormat::Ico
    } else {
        OutFormat::Png
    }
}

/// The default encoding for an output file name: decided by the characters
/// after its last dot.
pub open spec fn default_format(name: Seq<char>) -> OutFormat {
    format_of_extension(after_last_dot(name))
}

proof fn lemma_after_last_dot_none(s: Seq<char>)
    requires
        forall|j: int| 0 <= j < s.len() ==> s[j] != '.',
    ensures
        after_last_dot(s) == s,
    decreases s.len(),
{
    if s.len() > 0 {
        lemma_after_last_dot_none(s.drop_last());
        assert(after_last_dot(s) =~= s);
    } else {
        assert(after_last_dot(s) =~= s);
    }
}

proof fn lemma_after_last_dot_at(s: Seq<char>, i: int)
    requires
        0 <= i < s.len(),
        s[i] == '.',
        forall|j: int| i < j < s.len() ==> s[j] != '.',
    ensures
        after_last_dot(s) == s.subrange(i + 1, s.len() as int),
    decreases s.len(),
{
    if i == s.len() - 1 {
        assert(after_last_dot(s) =~= s.subrange(i + 1, s.len() as int));
    } else {
        lemma_after_last_dot_at(s.drop_last(), i);
        assert(after_last_dot(s) =~= s.subrange(i + 1, s.len() as int));
    }
}

/// The default output encoding for an output file name, from its extension.
pub fn format_for_name(name: &str) -> (r: OutFormat)
    ensures
        r == default_format(name@),
{
    let len = name.unicode_len();
    let mut i: usize = len;
    while i > 0 && name.get_char(i - 1) != '.'
        invariant
            len == name@.len(),
            i <= len,
            forall|j: int| i <= j < len ==> name@[j] != '.',
        decreases i,
    {
        i -= 1;
    }
    let ext: &str = if i == 0 {
        proof {
            lemma_after_last_dot_none(name@);
        }
        name
    } else {
        proof {
            lemma_after_last_dot_at(name@, i - 1);
        }
        name.substring_char(i, len)
    };
    proof {
        assert(ext@ == after_last_dot(name@));
        reveal_strlit("png");
        reveal_strlit("jpg");
        reveal_strlit("jpeg");
        reveal_strlit("bmp");
        reveal_strlit("gif");
        reveal_strlit("ico");
    }
    if str_eq(ext, "png") {
        OutFormat::Png
    } else if str_eq(ext, "jpg") || str_eq(ext, "jpeg") {
        OutFormat::Jpeg(100)
    } else if str_eq(ext, "bmp") {
        OutFormat::Bmp
    } else if str_eq(ext, "gif") {
        OutFormat::Gif
    } else if str_eq(ext, "ico") {
        OutFormat::Ico
    } else {
        OutFormat::Png
    }
}

} // verus!
