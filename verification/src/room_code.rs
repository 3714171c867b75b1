//! Joinable room codes: six ASCII letters or digits, stored in lobby metadata by the host and typed
//! in by joining players.
use rand::Rng;
use vstd::prelude::*;
use vstd::string::is_ascii;

verus! {

/// Length of a room code in characters.
pub const ROOM_CODE_LEN: usize = 6;

/// Lobby metadata key under which the host stores its room code.
pub const LOBBY_ROOM_KEY: &'static str = "wol_room";

/// Number of characters a room code is drawn from (`a-z`, `A-Z`, `0-9`).
pub const ROOM_CODE_ALPHABET_LEN: usize = 62;

/// An ASCII letter or digit (`char::is_ascii_alphanumeric`).
pub open spec fn is_room_code_char(c: char) -> bool {
    ||| ('a' <= c && c <= 'z')
    ||| ('A' <= c && c <= 'Z')
    ||| ('0' <= c && c <= '9')
}

/// A valid room code: exactly six characters, each an ASCII letter or digit.
pub open spec fn is_room_code(s: Seq<char>) -> bool {
    &&& s.len() == ROOM_CODE_LEN
    &&& forall|i: int| 0 <= i < s.len() ==> #[trigger] is_room_code_char(s[i])
}

/// A Unicode `White_Space` character, the set that `char::is_whitespace` and `str::trim` use.
pub open spec fn is_unicode_whitespace(c: char) -> bool {
    ||| ('\u{9}' <= c && c <= '\u{d}')
    ||| c == ' '
    ||| c == '\u{85}'
    ||| c == '\u{a0}'
    ||| c == '\u{1680}'
    ||| ('\u{2000}' <= c && c <= '\u{200a}')
    ||| c == '\u{2028}'
    ||| c == '\u{2029}'
    ||| c == '\u{202f}'
    ||| c == '\u{205f}'
    ||| c == '\u{3000}'
}

/// `s` without its leading whitespace.
pub open spec fn trim_start(s: Seq<char>) -> Seq<char>
    decreases s.len(),
{
    if s.len() > 0 && is_unicode_whitespace(s[0]) {
        trim_start(s.drop_first())
    } else {
        s
    }
}

/// `s` without its trailing whitespace.
pub open spec fn trim_end(s: Seq<char>) -> Seq<char>
    decreases s.len(),
{
    if s.len() > 0 && is_unicode_whitespace(s.last()) {
        trim_end(s.drop_last())
    } else {
        s
    }
}

/// `s` without leading and trailing whitespace (`str::trim`).
pub open spec fn trim(s: Seq<char>) -> Seq<char> {
    trim_end(trim_start(s))
}

/// Letters and digits are ASCII, so a string of them is as many bytes long as it is characters.
proof fn lemma_room_code_chars_ascii(s: Seq<char>)
    requires
        forall|i: int| 0 <= i < s.len() ==> #[trigger] is_room_code_char(s[i]),
    ensures
        vstd::utf8::is_ascii_chars(s),
        vstd::utf8::encode_utf8(s).len() == s.len(),
{
    assert forall|i: int| 0 <= i < s.len() implies '\0' <= #[trigger] s[i] <= '\u{7f}' by {
        assert(is_room_code_char(s[i]));
    }
    vstd::utf8::is_ascii_chars_encode_utf8(s);
}

fn is_room_code_char_exec(c: char) -> (res: bool)
    ensures
        res == is_room_code_char(c),
{
    ('a' <= c && c <= 'z') || ('A' <= c && c <= 'Z') || ('0' <= c && c <= '9')
}

fn is_unicode_whitespace_exec(c: char) -> (res: bool)
    ensures
        res == is_unicode_whitespace(c),
{
    ('\u{9}' <= c && c <= '\u{d}') || c == ' ' || c == '\u{85}' || c == '\u{a0}' || c
        == '\u{1680}' || ('\u{2000}' <= c && c <= '\u{200a}') || c == '\u{2028}' || c
        == '\u{2029}' || c == '\u{202f}' || c == '\u{205f}' || c == '\u{3000}'
}

/// The characters of `s`, in order.
fn chars_of(s: &str) -> (chars: Vec<char>)
    ensures
        chars@ == s@,
{
    broadcast use vstd::string::group_string_axioms;

    let mut chars: Vec<char> = Vec::new();
    for c in iter: s.chars()
        invariant
            iter.seq() == s@,
            chars@ == iter.seq().take(iter.index() as int),
    {
        chars.push(c);
    }
    chars
}

/// `s` without leading and trailing Unicode whitespace (`str::trim`).
pub fn trim_whitespace(s: &str) -> (res: &str)
    ensures
        res@ == trim(s@),
{
    let chars = chars_of(s);
    let n = chars.len();
    let mut i: usize = 0;
    assert(s@.subrange(0, n as int) =~= s@);
    while i < n && is_unicode_whitespace_exec(chars[i])
        invariant
            chars@ == s@,
            n == s@.len(),
            i <= n,
            trim_start(s@) == trim_start(s@.subrange(i as int, n as int)),
        decreases n - i,
    {
        assert(s@.subrange(i as int, n as int).drop_first() =~= s@.subrange(i + 1, n as int));
        i = i + 1;
    }
    assert(trim_start(s@) == s@.subrange(i as int, n as int));
    let mut j: usize = n;
    while j > i && is_unicode_whitespace_exec(chars[j - 1])
        invariant
            chars@ == s@,
            n == s@.len(),
            i <= j <= n,
            trim(s@) == trim_end(s@.subrange(i as int, j as int)),
        decreases j - i,
    {
        assert(s@.subrange(i as int, j as int).drop_last() =~= s@.subrange(i as int, j - 1));
        j = j - 1;
    }
    s.substring_char(i, j)
}

#[verifier::external_type_specification]
#[verifier::external_body]
pub struct ExThreadRng(rand::rngs::ThreadRng);

/// `rand::thread_rng`: a handle to the thread-local random generator; nothing is promised of it.
#[verifier::external_body]
fn thread_rng() -> rand::rngs::ThreadRng {
    rand::thread_rng()
}

/// `Rng::gen_range` over `0..bound`: some number below `bound` (which number is left open, as it
/// is drawn at random). The range must not be empty, else the call panics.
#[verifier::external_body]
fn gen_index_below(rng: &mut rand::rngs::ThreadRng, bound: usize) -> (i: usize)
    requires
        bound > 0,
    ensures
        i < bound,
{
    rng.gen_range(0..bound)
}

/// The characters a room code is drawn from, in order: `a-z`, `A-Z`, `0-9`.
pub open spec fn room_code_alphabet() -> Seq<char> {
    "abcdefghijklmnopqrstuvwxyzABCDEFGHIJKLMNOPQRSTUVWXYZ0123456789"@
}

/// Six draws, each an index into the alphabet.
pub open spec fn valid_draws(draws: Seq<usize>) -> bool {
    &&& draws.len() == ROOM_CODE_LEN
    &&& forall|k: int| 0 <= k < draws.len() ==> #[trigger] draws[k] < ROOM_CODE_ALPHABET_LEN
}

/// The room code that spells the alphabet characters at `draws`, in order.
pub open spec fn code_from_draws(draws: Seq<usize>) -> Seq<char> {
    Seq::new(draws.len(), |k: int| room_code_alphabet()[draws[k] as int])
}

/// A code made by some six draws from the alphabet.
pub open spec fn is_drawn_room_code(code: Seq<char>) -> bool {
    exists|draws: Seq<usize>| valid_draws(draws) && code == code_from_draws(draws)
}

/// The alphabet has 62 characters, each a letter or digit.
proof fn lemma_alphabet()
    ensures
        room_code_alphabet().len() == ROOM_CODE_ALPHABET_LEN,
        forall|i: int|
            0 <= i < room_code_alphabet().len() ==> #[trigger] is_room_code_char(
                room_code_alphabet()[i],
            ),
        vstd::utf8::is_ascii_chars(room_code_alphabet()),
{
    reveal_strlit("abcdefghijklmnopqrstuvwxyzABCDEFGHIJKLMNOPQRSTUVWXYZ0123456789");
    assert forall|i: int| 0 <= i < room_code_alphabet().len() implies #[trigger] is_room_code_char(
        room_code_alphabet()[i],
    ) by {}
    lemma_room_code_chars_ascii(room_code_alphabet());
}

/// A drawn code is a room code.
pub proof fn lemma_drawn_code_is_room_code(draws: Seq<usize>)
    requires
        valid_draws(draws),
    ensures
        is_room_code(code_from_draws(draws)),
{
    lemma_alphabet();
    assert forall|i: int| 0 <= i < code_from_draws(draws).len() implies #[trigger] is_room_code_char(
        code_from_draws(draws)[i],
    ) by {
        assert(draws[i] < ROOM_CODE_ALPHABET_LEN);
    }
}

/// The room code spelled by six draws from the alphabet.
pub fn room_code_from_draws(draws: &[usize]) -> (code: String)
    requires
        valid_draws(draws@),
    ensures
        code@ == code_from_draws(draws@),
        is_room_code(code@),
{
    let alphabet = "abcdefghijklmnopqrstuvwxyzABCDEFGHIJKLMNOPQRSTUVWXYZ0123456789";
    proof {
        lemma_alphabet();
        lemma_drawn_code_is_room_code(draws@);
    }
    assert(alphabet@ == room_code_alphabet());
    assert(is_ascii(alphabet));
    let mut code = String::new();
    for k in 0..ROOM_CODE_LEN
        invariant
            alphabet@ == room_code_alphabet(),
            alphabet@.len() == ROOM_CODE_ALPHABET_LEN,
            is_ascii(alphabet),
            valid_draws(draws@),
            code@ == code_from_draws(draws@).take(k as int),
    {
        let i = draws[k];
        let piece = alphabet.substring_ascii(i, i + 1);
        code.append(piece);
        assert(code@ =~= code_from_draws(draws@).take(k + 1));
    }
    assert(code@ =~= code_from_draws(draws@));
    code
}

/// A fresh room code: six characters, each drawn at random from `a-z`, `A-Z`, `0-9`.
pub fn random_room_code() -> (code: String)
    ensures
        is_drawn_room_code(code@),
        is_room_code(code@),
{
    let mut rng = thread_rng();
    let mut draws: Vec<usize> = Vec::new();
    for k in 0..ROOM_CODE_LEN
        invariant
            draws@.len() == k,
            forall|j: int| 0 <= j < k ==> #[trigger] draws@[j] < ROOM_CODE_ALPHABET_LEN,
    {
        draws.push(gen_index_below(&mut rng, ROOM_CODE_ALPHABET_LEN));
    }
    let code = room_code_from_draws(draws.as_slice());
    assert(valid_draws(draws@));
    code
}

/// Whether `s` is a room code: six bytes long, every character an ASCII letter or digit.
pub fn is_valid_room_code(s: &str) -> (res: bool)
    ensures
        res == is_room_code(s@),
{
    if s.len() != ROOM_CODE_LEN {
        proof {
            if is_room_code(s@) {
                lemma_room_code_chars_ascii(s@);
            }
        }
        return false;
    }
    let n = s.unicode_len();
    let mut i: usize = 0;
    while i < n
        invariant
            n == s@.len(),
            i <= n,
            forall|j: int| 0 <= j < i ==> #[trigger] is_room_code_char(s@[j]),
        decreases n - i,
    {
        let c = s.get_char(i);
        if !is_room_code_char_exec(c) {
            return false;
        }
        i = i + 1;
    }
    proof {
        lemma_room_code_chars_ascii(s@);
    }
    true
}

/// A room code has no surrounding whitespace: trimming leaves it as it is, so a code that
/// `random_room_code` produced is searched for exactly as generated when typed into a join.
pub proof fn lemma_room_code_trims_to_itself(s: Seq<char>)
    requires
        is_room_code(s),
    ensures
        trim(s) == s,
{
    assert(is_room_code_char(s[0]));
    assert(is_room_code_char(s.last()));
    assert(trim_start(s) == s);
}

/// Room-code characters are exactly the characters of the alphabet that codes are drawn from:
/// `a-z`, `A-Z` and `0-9`, and nothing else (no `_`, `-`, space or non-ASCII letter).
pub proof fn lemma_room_code_chars_are_alphabet(c: char)
    ensures
        is_room_code_char(c) <==> room_code_alphabet().contains(c),
{
    lemma_alphabet();
    let a = room_code_alphabet();
    reveal_strlit("abcdefghijklmnopqrstuvwxyzABCDEFGHIJKLMNOPQRSTUVWXYZ0123456789");
    assert forall|j: int| 0 <= j < 26 implies #[trigger] a[j] as int == 'a' as int + j by {}
    assert forall|j: int| 26 <= j < 52 implies #[trigger] a[j] as int == 'A' as int + (j - 26) by {}
    assert forall|j: int| 52 <= j < 62 implies #[trigger] a[j] as int == '0' as int + (j - 52) by {}
    if is_room_code_char(c) {
        let i: int = if 'a' <= c && c <= 'z' {
            c as int - 'a' as int
        } else if 'A' <= c && c <= 'Z' {
            26 + (c as int - 'A' as int)
        } else {
            52 + (c as int - '0' as int)
        };
        assert(0 <= i < 62);
        assert(a[i] as int == c as int);
        assert(a[i] == c);
    }
}

proof fn lemma_trim_start_shape(s: Seq<char>)
    ensures
        exists|a: int|
            0 <= a <= s.len() && trim_start(s) == s.subrange(a, s.len() as int) && (forall|j: int|
                0 <= j < a ==> is_unicode_whitespace(#[trigger] s[j])) && (a < s.len()
                ==> !is_unicode_whitespace(s[a])),
    decreases s.len(),
{
    if s.len() > 0 && is_unicode_whitespace(s[0]) {
        let t = s.drop_first();
        lemma_trim_start_shape(t);
        let a = choose|a: int|
            0 <= a <= t.len() && trim_start(t) == t.subrange(a, t.len() as int) && (forall|j: int|
                0 <= j < a ==> is_unicode_whitespace(#[trigger] t[j])) && (a < t.len()
                ==> !is_unicode_whitespace(t[a]));
        assert(t.subrange(a, t.len() as int) =~= s.subrange(a + 1, s.len() as int));
        assert forall|j: int| 0 <= j < a + 1 implies is_unicode_whitespace(#[trigger] s[j]) by {
            if j > 0 {
                assert(s[j] == t[j - 1]);
            }
        }
    } else {
        assert(s.subrange(0, s.len() as int) =~= s);
    }
}

proof fn lemma_trim_end_shape(s: Seq<char>)
    ensures
        exists|b: int|
            0 <= b <= s.len() && trim_end(s) == s.subrange(0, b) && (forall|j: int|
                b <= j < s.len() ==> is_unicode_whitespace(#[trigger] s[j])) && (b > 0
                ==> !is_unicode_whitespace(s[b - 1])),
    decreases s.len(),
{
    if s.len() > 0 && is_unicode_whitespace(s.last()) {
        let t = s.drop_last();
        lemma_trim_end_shape(t);
        let b = choose|b: int|
            0 <= b <= t.len() && trim_end(t) == t.subrange(0, b) && (forall|j: int|
                b <= j < t.len() ==> is_unicode_whitespace(#[trigger] t[j])) && (b > 0
                ==> !is_unicode_whitespace(t[b - 1]));
        assert(t.subrange(0, b) =~= s.subrange(0, b));
        assert forall|j: int| b <= j < s.len() implies is_unicode_whitespace(#[trigger] s[j]) by {
            if j < s.len() - 1 {
                assert(s[j] == t[j]);
            }
        }
    } else {
        assert(s.subrange(0, s.len() as int) =~= s);
    }
}

/// What trimming leaves: a contiguous part `s[a..b]` of the text such that everything before
/// `a` and from `b` on is whitespace, and the part neither starts nor ends with whitespace (it is
/// empty only when the whole text is whitespace).
pub proof fn lemma_trim_shape(s: Seq<char>)
    ensures
        exists|a: int, b: int|
            0 <= a <= b <= s.len() && trim(s) == s.subrange(a, b) && (forall|j: int|
                0 <= j < a ==> is_unicode_whitespace(#[trigger] s[j])) && (forall|j: int|
                b <= j < s.len() ==> is_unicode_whitespace(#[trigger] s[j])) && (a < b
                ==> !is_unicode_whitespace(s[a]) && !is_unicode_whitespace(s[b - 1])),
{
    lemma_trim_start_shape(s);
    let a = choose|a: int|
        0 <= a <= s.len() && trim_start(s) == s.subrange(a, s.len() as int) && (forall|j: int|
            0 <= j < a ==> is_unicode_whitespace(#[trigger] s[j])) && (a < s.len()
            ==> !is_unicode_whitespace(s[a]));
    let t = trim_start(s);
    lemma_trim_end_shape(t);
    let b = choose|b: int|
        0 <= b <= t.len() && trim_end(t) == t.subrange(0, b) && (forall|j: int|
            b <= j < t.len() ==> is_unicode_whitespace(#[trigger] t[j])) && (b > 0
            ==> !is_unicode_whitespace(t[b - 1]));
    assert(t.subrange(0, b) =~= s.subrange(a, a + b));
    assert forall|j: int| a + b <= j < s.len() implies is_unicode_whitespace(#[trigger] s[j]) by {
        assert(s[j] == t[j - a]);
    }
    if a < a + b {
        assert(s[a] == t[0]);
        assert(s[a + b - 1] == t[b - 1]);
    }
}

} // verus!
