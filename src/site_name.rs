use vstd::prelude::*;
use vstd::string::*;
use crate::error::AppError;

verus! {

/// Longest site name accepted.
pub const MAX_SITE_NAME_LEN: usize = 64;

/// A character allowed in a site name: an ASCII letter or digit, `-` or `_`.
pub open spec fn is_slug_char(c: char) -> bool {
    ('a' <= c <= 'z') || ('A' <= c <= 'Z') || ('0' <= c <= '9') || c == '-' || c == '_'
}

/// A site name matching `[A-Za-z0-9_-]{1,64}`.
pub open spec fn is_valid_site_name(s: Seq<char>) -> bool {
    &&& 1 <= s.len() <= MAX_SITE_NAME_LEN
    &&& forall|i: int| 0 <= i < s.len() ==> #[trigger] is_slug_char(s[i])
}

fn is_slug_byte(b: u8) -> (r: bool)
    ensures
        r == is_slug_char(b as char),
{
    (b >= 97 && b <= 122) || (b >= 65 && b <= 90) || (b >= 48 && b <= 57) || b == 45 || b == 95
}

/// Checks a site name against the slug pattern.
pub fn validate_site_name(name: &str) -> (r: Result<(), AppError>)
    ensures
        r is Ok <==> is_valid_site_name(name@),
        r matches Err(e) ==> e is InvalidName,
{
    broadcast use vstd::utf8::is_ascii_chars_nat_bound;
    if !name.is_ascii() {
        proof {
            let i = choose|i: int| 0 <= i < name@.len() && !('\0' <= #[trigger] name@[i] <= '\u{7f}');
            assert(!is_slug_char(name@[i]));
        }
        return Err(AppError::InvalidName(
            String::from_str("siteName must contain only alphanumeric characters, hyphens, and underscores"),
        ));
    }
    let n = name.unicode_len();
    let mut i: usize = 0;
    while i < n
        invariant
            n == name@.len(),
            is_ascii(name),
            i <= n,
            forall|j: int| 0 <= j < i ==> #[trigger] is_slug_char(name@[j]),
        decreases n - i,
    {
        let b = name.get_ascii(i);
        assert(name@[i as int] as u8 == b);
        assert((name@[i as int] as nat) < 128);
        assert(name@[i as int] == b as char);
        if !is_slug_byte(b) {
            return Err(AppError::InvalidName(
                String::from_str("siteName must contain only alphanumeric characters, hyphens, and underscores"),
            ));
        }
        i = i + 1;
    }
    if n == 0 || n > MAX_SITE_NAME_LEN {
        return Err(AppError::InvalidName(String::from_str("siteName must be between 1 and 64 characters")));
    }
    Ok(())
}

} // verus!
