use vstd::prelude::*;
use vstd::utf8::{decode_utf8, valid_utf8};

verus! {

/// Launch-at-login registration on Linux.
pub struct Linux;

/// Foreground-process queries on Linux.
pub struct LinuxMonitor;

impl LinuxMonitor {
    pub fn new() -> Self {
        LinuxMonitor
    }
}

/// Launch-at-login registration on macOS.
pub struct MacOS;

/// Foreground-process queries on macOS.
pub struct MacOSMonitor;

impl MacOSMonitor {
    pub fn new() -> Self {
        MacOSMonitor
    }
}

/// Launch-at-login registration on Windows.
pub struct Windows;

/// Foreground-process queries on Windows.
pub struct WindowsMonitor;

impl WindowsMonitor {
    pub fn new() -> Self {
        WindowsMonitor
    }
}

/// Whether `c` has the Unicode White_Space property, as `char::is_whitespace`
/// decides it.
pub open spec fn is_white_space(c: char) -> bool {
    let v = c as u32;
    (0x9 <= v <= 0xd) || v == 0x20 || v == 0x85 || v == 0xa0 || v == 0x1680 || (0x2000 <= v <= 0x200a)
        || v == 0x2028 || v == 0x2029 || v == 0x202f || v == 0x205f || v == 0x3000
}

pub fn white_space(c: char) -> (r: bool)
    ensures
        r == is_white_space(c),
{
    let v = c as u32;
    (0x9 <= v && v <= 0xd) || v == 0x20 || v == 0x85 || v == 0xa0 || v == 0x1680 || (0x2000 <= v && v
        <= 0x200a) || v == 0x2028 || v == 0x2029 || v == 0x202f || v == 0x205f || v == 0x3000
}

/// `s` without its leading white space.
pub open spec fn strip_leading_white_space(s: Seq<char>) -> Seq<char>
    decreases s.len(),
{
    if s.len() > 0 && is_white_space(s[0]) {
        strip_leading_white_space(s.skip(1))
    } else {
        s
    }
}

/// `s` without its trailing white space.
pub open spec fn strip_trailing_white_space(s: Seq<char>) -> Seq<char>
    decreases s.len(),
{
    if s.len() > 0 && is_white_space(s.last()) {
        strip_trailing_white_space(s.drop_last())
    } else {
        s
    }
}

/// `s` with leading and trailing white space removed, as `str::trim` does.
pub open spec fn trimmed(s: Seq<char>) -> Seq<char> {
    strip_trailing_white_space(strip_leading_white_space(s))
}

/// Relies on `String::from_utf8`: the bytes as text exactly when they are
/// valid UTF-8.
#[verifier::external_body]
fn utf8_string(bytes: Vec<u8>) -> (r: Option<String>)
    ensures
        r is Some <==> valid_utf8(bytes@),
        r matches Some(s) ==> s@ == decode_utf8(bytes@),
{
    String::from_utf8(bytes).ok()
}

/// `s` with leading and trailing white space removed.
pub fn trim_white_space(s: &str) -> (r: String)
    ensures
        r@ == trimmed(s@),
{
    let ghost q = s@;
    let len = s.unicode_len();
    let mut i: usize = 0;
    assert(q.skip(0) =~= q);
    while i < len && white_space(s.get_char(i))
        invariant
            i <= len == q.len(),
            q == s@,
            strip_leading_white_space(q) == strip_leading_white_space(q.skip(i as int)),
        decreases len - i,
    {
        assert(q.skip(i as int).skip(1) =~= q.skip(i + 1));
        i = i + 1;
    }
    assert(strip_leading_white_space(q) == q.subrange(i as int, len as int)) by {
        assert(q.skip(i as int) =~= q.subrange(i as int, len as int));
    }
    let mut j: usize = len;
    while j > i && white_space(s.get_char(j - 1))
        invariant
            i <= j <= len == q.len(),
            q == s@,
            strip_trailing_white_space(q.subrange(i as int, len as int)) == strip_trailing_white_space(
                q.subrange(i as int, j as int),
            ),
        decreases j,
    {
        assert(q.subrange(i as int, j as int).drop_last() =~= q.subrange(i as int, j - 1));
        j = j - 1;
    }
    s.substring_char(i, j).to_string()
}

/// A process name from already-trimmed text: nothing when it is empty.
pub fn process_name_from_trimmed(text: String) -> (r: Option<String>)
    ensures
        match r {
            Some(n) => n@ == text@ && text@.len() > 0,
            None => text@.len() == 0,
        },
{
    if text.as_str().unicode_len() == 0 {
        None
    } else {
        Some(text)
    }
}

/// The process name that `ps -o comm=` printed: its output as UTF-8 text,
/// trimmed; nothing when the output is not UTF-8 or trims to nothing.
pub fn process_name_from_ps_output(stdout: Vec<u8>) -> (r: Option<String>)
    ensures
        match r {
            Some(n) => valid_utf8(stdout@) && n@ == trimmed(decode_utf8(stdout@)) && n@.len() > 0,
            None => !valid_utf8(stdout@) || trimmed(decode_utf8(stdout@)).len() == 0,
        },
{
    match utf8_string(stdout) {
        None => None,
        Some(text) => process_name_from_trimmed(trim_white_space(text.as_str())),
    }
}

/// What `String::from_utf8_lossy` makes of `bytes`: invalid sequences
/// replaced by U+FFFD.
pub uninterp spec fn lossy_text(bytes: Seq<u8>) -> Seq<char>;

/// Relies on `String::from_utf8_lossy`, which returns valid UTF-8 unchanged.
#[verifier::external_body]
fn utf8_lossy(bytes: &[u8]) -> (r: String)
    ensures
        r@ == lossy_text(bytes@),
        valid_utf8(bytes@) ==> r@ == decode_utf8(bytes@),
{
    String::from_utf8_lossy(bytes).into_owned()
}

/// `s` without its leading NUL characters.
pub open spec fn strip_leading_nul(s: Seq<char>) -> Seq<char>
    decreases s.len(),
{
    if s.len() > 0 && s[0] == '\0' {
        strip_leading_nul(s.skip(1))
    } else {
        s
    }
}

/// `s` without its trailing NUL characters.
pub open spec fn strip_trailing_nul(s: Seq<char>) -> Seq<char>
    decreases s.len(),
{
    if s.len() > 0 && s.last() == '\0' {
        strip_trailing_nul(s.drop_last())
    } else {
        s
    }
}

/// What follows the last backslash of `s` (all of `s` when it has none).
pub open spec fn last_component(s: Seq<char>) -> Seq<char>
    decreases s.len(),
{
    if s.len() == 0 || s.last() == '\\' {
        Seq::empty()
    } else {
        last_component(s.drop_last()).push(s.last())
    }
}

/// The file name of a NUL-padded Windows image path.
pub open spec fn image_name(path: Seq<char>) -> Seq<char> {
    last_component(strip_trailing_nul(strip_leading_nul(path)))
}

/// The process name in a NUL-padded Windows image path: the part after its
/// last backslash, NUL padding removed; nothing when that part is empty.
pub fn process_name_from_image_path(path: &str) -> (r: Option<String>)
    ensures
        match r {
            Some(n) => n@ == image_name(path@) && n@.len() > 0,
            None => image_name(path@).len() == 0,
        },
{
    let ghost s = path@;
    let len = path.unicode_len();
    let mut i: usize = 0;
    assert(s.skip(0) =~= s);
    while i < len && path.get_char(i) == '\0'
        invariant
            i <= len == s.len(),
            s == path@,
            strip_leading_nul(s) == strip_leading_nul(s.skip(i as int)),
        decreases len - i,
    {
        assert(s.skip(i as int).skip(1) =~= s.skip(i + 1));
        i = i + 1;
    }
    assert(strip_leading_nul(s) == s.subrange(i as int, len as int)) by {
        assert(s.skip(i as int) =~= s.subrange(i as int, len as int));
    }
    let mut j: usize = len;
    while j > i && path.get_char(j - 1) == '\0'
        invariant
            i <= j <= len == s.len(),
            s == path@,
            strip_trailing_nul(s.subrange(i as int, len as int)) == strip_trailing_nul(s.subrange(i as int, j as int)),
        decreases j,
    {
        assert(s.subrange(i as int, j as int).drop_last() =~= s.subrange(i as int, j - 1));
        j = j - 1;
    }
    let ghost u = s.subrange(i as int, j as int);
    assert(strip_trailing_nul(u) == u);
    let mut k: usize = j;
    assert(s.subrange(k as int, j as int) =~= Seq::<char>::empty());
    assert(u =~= s.subrange(i as int, k as int));
    while k > i && path.get_char(k - 1) != '\\'
        invariant
            i <= k <= j,
            j <= len == s.len(),
            s == path@,
            last_component(u) == last_component(s.subrange(i as int, k as int)) + s.subrange(k as int, j as int),
        decreases k,
    {
        let ghost v = s.subrange(i as int, k as int);
        assert(v.drop_last() =~= s.subrange(i as int, k - 1));
        assert(v.last() == s[k - 1]);
        assert(last_component(s.subrange(i as int, k - 1)).push(s[k - 1]) + s.subrange(k as int, j as int)
            =~= last_component(s.subrange(i as int, k - 1)) + s.subrange(k - 1, j as int));
        k = k - 1;
    }
    assert(last_component(s.subrange(i as int, k as int)) =~= Seq::<char>::empty());
    assert(last_component(u) =~= s.subrange(k as int, j as int));
    if k == j {
        None
    } else {
        Some(path.substring_char(k, j).to_string())
    }
}

/// The process name in the image-path buffer that Windows filled: the bytes
/// read as UTF-8 (invalid sequences replaced), then as for
/// `process_name_from_image_path`.
pub fn process_name_from_image_buffer(buffer: &[u8]) -> (r: Option<String>)
    ensures
        match r {
            Some(n) => n@ == image_name(lossy_text(buffer@)) && n@.len() > 0,
            None => image_name(lossy_text(buffer@)).len() == 0,
        },
{
    let text = utf8_lossy(buffer);
    process_name_from_image_path(text.as_str())
}

} // verus!
