//! The ids of nodes, rooms and requests.
use vstd::prelude::*;

use crate::model::opt_view;
use crate::text;
use crate::text::trimmed;

verus! {

/// A digit of a lower-case hexadecimal number.
pub open spec fn is_lower_hex(c: char) -> bool {
    '0' <= c <= '9' || 'a' <= c <= 'f'
}

/// The digit for a number below sixteen.
pub open spec fn lower_hex_digit(n: int) -> char {
    if n < 10 {
        ('0' as int + n) as char
    } else {
        ('a' as int + n - 10) as char
    }
}

/// The bytes in lower-case hexadecimal digits, two for each.
pub open spec fn lower_hex(bytes: Seq<u8>) -> Seq<char> {
    Seq::new(
        bytes.len() * 2,
        |i: int|
            if i % 2 == 0 {
                lower_hex_digit(bytes[i / 2] as int / 16)
            } else {
                lower_hex_digit(bytes[i / 2] as int % 16)
            },
    )
}

/// Calls `hex::encode`: two lower-case hexadecimal digits for each byte, the
/// higher one first.
#[verifier::external_body]
fn hex_encode(bytes: &[u8]) -> (r: String)
    requires
        bytes@.len() <= 0x1000_0000,
    ensures
        r@ == lower_hex(bytes@),
{
    hex::encode(bytes)
}

/// Calls `RngCore::fill_bytes` of `rand`'s `thread_rng` on four bytes. Which bytes
/// come, is left to chance.
#[verifier::external_body]
fn random_bytes() -> [u8; 4] {
    let mut buf = [0u8; 4];
    rand::RngCore::fill_bytes(&mut rand::thread_rng(), &mut buf);
    buf
}

/// The room id that four bytes make.
pub fn room_id_of(bytes: [u8; 4]) -> (r: String)
    ensures
        r@ == lower_hex(bytes@),
{
    hex_encode(bytes.as_slice())
}

/// A room id at random: eight hexadecimal digits.
pub fn generate_room_id() -> (r: String)
    ensures
        r@.len() == 8,
        forall|i: int| 0 <= i < 8 ==> is_lower_hex(#[trigger] r@[i]),
{
    let bytes = random_bytes();
    let id = room_id_of(bytes);
    proof {
        lemma_lower_hex(bytes@);
    }
    id
}

proof fn lemma_lower_hex(bytes: Seq<u8>)
    ensures
        forall|i: int| 0 <= i < lower_hex(bytes).len() ==> is_lower_hex(#[trigger] lower_hex(bytes)[i]),
{
    assert forall|i: int| 0 <= i < lower_hex(bytes).len() implies is_lower_hex(
        #[trigger] lower_hex(bytes)[i],
    ) by {
        let n = if i % 2 == 0 {
            bytes[i / 2] as int / 16
        } else {
            bytes[i / 2] as int % 16
        };
        assert(0 <= n < 16);
        assert(lower_hex(bytes)[i] == lower_hex_digit(n));
    }
}

/// Different bytes make different room ids.
pub proof fn law_room_ids_differ(a: Seq<u8>, b: Seq<u8>)
    requires
        a.len() == b.len(),
        lower_hex(a) == lower_hex(b),
    ensures
        a == b,
{
    assert forall|i: int| 0 <= i < a.len() implies a[i] == b[i] by {
        let x = lower_hex(a);
        assert(x[2 * i] == lower_hex(b)[2 * i]);
        assert(x[2 * i + 1] == lower_hex(b)[2 * i + 1]);
        assert((2 * i) / 2 == i && (2 * i + 1) / 2 == i && (2 * i) % 2 == 0 && (2 * i + 1) % 2
            == 1);
        lemma_digit_injective(a[i] as int / 16, b[i] as int / 16);
        lemma_digit_injective(a[i] as int % 16, b[i] as int % 16);
    }
    assert(a =~= b);
}

proof fn lemma_digit_injective(m: int, n: int)
    requires
        0 <= m < 16,
        0 <= n < 16,
        lower_hex_digit(m) == lower_hex_digit(n),
    ensures
        m == n,
{
}

/// A random id of version four: hexadecimal digits in groups of 8, 4, 4, 4 and
/// 12, with hyphens between them, the version and the variant in their places.
pub open spec fn is_uuid(s: Seq<char>) -> bool {
    &&& s.len() == 36
    &&& forall|i: int|
        0 <= i < 36 ==> if i == 8 || i == 13 || i == 18 || i == 23 {
            (#[trigger] s[i]) == '-'
        } else {
            is_lower_hex(s[i])
        }
    &&& s[14] == '4'
    &&& (s[19] == '8' || s[19] == '9' || s[19] == 'a' || s[19] == 'b')
}

/// Calls `uuid::Uuid::new_v4` and writes the id as text. Which id comes, is left
/// to chance.
#[verifier::external_body]
pub(crate) fn random_uuid() -> (r: String)
    ensures
        is_uuid(r@),
{
    uuid::Uuid::new_v4().to_string()
}

/// A new id for a node.
pub fn new_node_id() -> (r: String)
    ensures
        is_uuid(r@),
{
    random_uuid()
}

/// The id of a node that a text holds.
pub open spec fn stored_id(file_text: Seq<char>) -> Option<Seq<char>> {
    if trimmed(file_text).len() == 0 {
        None
    } else {
        Some(trimmed(file_text))
    }
}

/// The text of the file that holds an id.
pub open spec fn id_file(id: Seq<char>) -> Seq<char> {
    id + "\n"@
}

/// The id of this node that a file holds: its text without the white space
/// around it. A file with nothing else holds none.
pub fn stored_node_id(file_text: &str) -> (r: Option<String>)
    ensures
        opt_view(r) == stored_id(file_text@),
{
    let id = text::trim(file_text);
    if id.unicode_len() == 0 {
        None
    } else {
        Some(text::copy(id))
    }
}

/// The text of the file that holds the id of a node.
pub fn node_id_file(id: &str) -> (r: String)
    ensures
        r@ == id_file(id@),
{
    text::cat2(id, "\n")
}

/// A new id that was stored is read back.
pub proof fn law_node_id_is_reused(id: Seq<char>)
    requires
        is_uuid(id),
    ensures
        stored_id(id_file(id)) == Some(id),
{
    reveal_strlit("\n");
    let s = id + "\n"@;
    assert(is_lower_hex(id[0]));
    assert(s[0] == id[0]);
    assert(text::trimmed_start(s) == s);
    assert(s.last() == '\n');
    assert(s.drop_last() =~= id);
    assert(is_lower_hex(id[35]));
    assert(id.last() == id[35]);
    assert(text::trimmed_end(id) == id);
    assert(text::trimmed_end(s) == text::trimmed_end(id));
}

/// The first of some places that is known.
pub open spec fn first_known<T>(
    config_dir: Option<T>,
    app_data: Option<T>,
    home_config: Option<T>,
    current: T,
) -> T {
    match (config_dir, app_data, home_config) {
        (Some(dir), _, _) => dir,
        (None, Some(dir), _) => dir,
        (None, None, Some(dir)) => dir,
        (None, None, None) => current,
    }
}

/// Where the files of this program are kept: in the first of these places that
/// is known.
pub fn choose_config_dir<T>(
    config_dir: Option<T>,
    app_data: Option<T>,
    home_config: Option<T>,
    current: T,
) -> (r: T)
    ensures
        r == first_known(config_dir, app_data, home_config, current),
{
    match config_dir {
        Some(dir) => dir,
        None => match app_data {
            Some(dir) => dir,
            None => match home_config {
                Some(dir) => dir,
                None => current,
            },
        },
    }
}

/// A file that holds nothing but white space holds no id, and what is read from one never
/// does.
pub proof fn law_blank_file_holds_no_id(file_text: Seq<char>)
    ensures
        stored_id(file_text) matches Some(id) ==> id.len() > 0 && id == trimmed(file_text),
        stored_id(file_text) is None <==> trimmed(file_text).len() == 0,
{
}

/// A place that is known comes before all that follow it, and the current one is taken only
/// where none is known.
pub proof fn law_known_places_come_first<T>(
    dir: T,
    app_data: Option<T>,
    home_config: Option<T>,
    current: T,
)
    ensures
        first_known(Some(dir), app_data, home_config, current) == dir,
        first_known(None, Some(dir), home_config, current) == dir,
        first_known(None, None, Some(dir), current) == dir,
        first_known(None, None, None, current) == current,
{
}

/// Each byte makes two digits, the higher one first.
pub proof fn law_two_digits_for_each_byte(bytes: Seq<u8>, i: int)
    requires
        0 <= i < bytes.len(),
    ensures
        lower_hex(bytes).len() == 2 * bytes.len(),
        is_lower_hex(lower_hex(bytes)[2 * i]) && is_lower_hex(lower_hex(bytes)[2 * i + 1]),
        bytes[i] == 0x0f ==> lower_hex(bytes)[2 * i] == '0' && lower_hex(bytes)[2 * i + 1] == 'f',
        bytes[i] == 0xa9 ==> lower_hex(bytes)[2 * i] == 'a' && lower_hex(bytes)[2 * i + 1] == '9',
{
    lemma_lower_hex(bytes);
    assert((2 * i) / 2 == i && (2 * i + 1) / 2 == i && (2 * i) % 2 == 0 && (2 * i + 1) % 2 == 1);
}

/// The form of a node id: digits in groups of 8, 4, 4, 4 and 12 with hyphens between them, the
/// version four and one of the four variants.
pub proof fn law_form_of_a_node_id(s: Seq<char>, i: int)
    requires
        is_uuid(s),
    ensures
        s.len() == 36,
        s[8] == '-' && s[13] == '-' && s[18] == '-' && s[23] == '-',
        s[14] == '4',
        s[19] == '8' || s[19] == '9' || s[19] == 'a' || s[19] == 'b',
        0 <= i < 36 && i != 8 && i != 13 && i != 18 && i != 23 ==> '0' <= s[i] <= '9' || 'a' <= s[i]
            <= 'f',
{
}

} // verus!
