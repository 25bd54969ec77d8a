//! View-model helpers for the UI layer: avatar initials and colors, the
//! sidebar's chat entries, the guard for sending a message, the join-code
//! parser, and the readings the pagination controller needs from a chat.
//!
//! Text is handled as UTF-8 bytes. Word boundaries and letter casing are
//! ASCII-based, and initials are taken bytewise: a word led by a
//! multi-byte character contributes that character's leading byte, not
//! the whole character.

use vstd::prelude::*;

use crate::model::{clone_bytes, has_user, views_of_chats, views_of_users, Chat};
use crate::protocol::{ClientPayload, ClientPayloadView};

verus! {

/// ASCII whitespace: space, tab, line feed, form feed, carriage return.
pub open spec fn is_space(b: u8) -> bool {
    b == 32 || b == 9 || b == 10 || b == 12 || b == 13
}

/// ASCII lowercase letters map to uppercase; everything else is kept.
pub open spec fn upper(b: u8) -> u8 {
    if 97 <= b <= 122 {
        (b - 32) as u8
    } else {
        b
    }
}

/// The uppercased first bytes of the words of `s` from position `i` on,
/// where `at_boundary` says whether position `i` starts a word when it is
/// not whitespace.
pub open spec fn initials_from(s: Seq<u8>, i: int, at_boundary: bool) -> Seq<u8>
    decreases s.len() - i,
{
    if i < 0 || i >= s.len() {
        Seq::empty()
    } else if is_space(s[i]) {
        initials_from(s, i + 1, true)
    } else if at_boundary {
        seq![upper(s[i])] + initials_from(s, i + 1, false)
    } else {
        initials_from(s, i + 1, false)
    }
}

/// The avatar initials of a name: the uppercased first byte of each word,
/// at most two.
pub open spec fn initials_of(s: Seq<u8>) -> Seq<u8> {
    let all = initials_from(s, 0, true);
    if all.len() <= 2 {
        all
    } else {
        all.take(2)
    }
}

/// Computes the avatar initials of a display name.
pub fn avatar_initials(name: &Vec<u8>) -> (r: Vec<u8>)
    ensures
        r@ == initials_of(name@),
{
    let n = name.len();
    let mut all: Vec<u8> = Vec::new();
    let mut boundary = true;
    for i in 0..n
        invariant
            n == name.len(),
            initials_from(name@, 0, true) == all@ + initials_from(name@, i as int, boundary),
    {
        let b = name[i];
        if b == 32 || b == 9 || b == 10 || b == 12 || b == 13 {
            boundary = true;
        } else {
            if boundary {
                let u = if 97 <= b && b <= 122 {
                    b - 32
                } else {
                    b
                };
                all.push(u);
                proof {
                    assert(all@ =~= all@.subrange(0, all@.len() - 1) + seq![upper(name@[i as int])]);
                }
            }
            boundary = false;
        }
    }
    let mut r: Vec<u8> = Vec::new();
    if all.len() > 0 {
        r.push(all[0]);
    }
    if all.len() > 1 {
        r.push(all[1]);
    }
    proof {
        assert(r@ =~= initials_of(name@));
    }
    r
}

/// The running color accumulator over the initials from position `i`.
pub open spec fn color_fold(s: Seq<u8>, i: int, acc: int) -> int
    decreases s.len() - i,
{
    if i < 0 || i >= s.len() {
        acc
    } else {
        color_fold(s, i + 1, (acc + s[i]) % 8)
    }
}

/// The avatar color index of a set of initials: the byte sum folded
/// modulo the number of palette colors (eight).
pub open spec fn color_index_of(s: Seq<u8>) -> int {
    color_fold(s, 0, 0)
}

/// Computes the avatar color index; always below eight.
pub fn avatar_color_index(initials: &Vec<u8>) -> (r: usize)
    ensures
        r == color_index_of(initials@),
        r < 8,
{
    let n = initials.len();
    let mut acc: usize = 0;
    for i in 0..n
        invariant
            n == initials.len(),
            acc < 8,
            color_index_of(initials@) == color_fold(initials@, i as int, acc as int),
    {
        acc = (acc + initials[i] as usize) % 8;
    }
    acc
}

/// Hexadecimal digit value, 16 for a byte that is no hex digit.
pub open spec fn hex_val(b: u8) -> int {
    if 48 <= b <= 57 {
        b - 48
    } else if 97 <= b <= 102 {
        b - 87
    } else if 65 <= b <= 70 {
        b - 55
    } else {
        16
    }
}

/// Every byte of `s` is a hex digit.
pub open spec fn all_hex(s: Seq<u8>) -> bool {
    forall|i: int| 0 <= i < s.len() ==> hex_val(#[trigger] s[i]) < 16
}

/// The value of the first `i` hex digits of `s`.
pub open spec fn hex_prefix_val(s: Seq<u8>, i: int) -> int
    decreases i,
{
    if i <= 0 {
        0
    } else {
        hex_prefix_val(s, i - 1) * 16 + hex_val(s[i - 1])
    }
}

/// The value of `i` hex digits fits in `4 * i` bits.
proof fn lemma_hex_prefix_bound(s: Seq<u8>, i: int, bound: int)
    requires
        0 <= i,
        all_hex(s),
        i <= s.len(),
        pow16(i) == bound,
    ensures
        0 <= hex_prefix_val(s, i) < bound,
    decreases i,
{
    if i > 0 {
        lemma_hex_prefix_bound(s, i - 1, pow16(i - 1));
    }
}

/// Sixteen to the power of `i`.
pub open spec fn pow16(i: int) -> int
    decreases i,
{
    if i <= 0 {
        1
    } else {
        16 * pow16(i - 1)
    }
}

/// A chat join code is the chat id written as exactly sixteen hex digits
/// (either letter case). Returns the id, or nothing for any other string.
pub fn parse_chat_code(code: &Vec<u8>) -> (r: Option<u64>)
    ensures
        match r {
            Some(x) => code@.len() == 16 && all_hex(code@) && x == hex_prefix_val(code@, 16),
            None => !(code@.len() == 16 && all_hex(code@)),
        },
{
    proof {
        assert(pow16(16) == 0x1_0000_0000_0000_0000) by {
            assert(pow16(0) == 1);
            assert(pow16(1) == 16);
            assert(pow16(2) == 0x100);
            assert(pow16(3) == 0x1000);
            assert(pow16(4) == 0x1_0000);
            assert(pow16(5) == 0x10_0000);
            assert(pow16(6) == 0x100_0000);
            assert(pow16(7) == 0x1000_0000);
            assert(pow16(8) == 0x1_0000_0000);
            assert(pow16(9) == 0x10_0000_0000);
            assert(pow16(10) == 0x100_0000_0000);
            assert(pow16(11) == 0x1000_0000_0000);
            assert(pow16(12) == 0x1_0000_0000_0000);
            assert(pow16(13) == 0x10_0000_0000_0000);
            assert(pow16(14) == 0x100_0000_0000_0000);
            assert(pow16(15) == 0x1000_0000_0000_0000);
        }
    }
    if code.len() != 16 {
        return None;
    }
    let mut acc: u64 = 0;
    for i in 0..16usize
        invariant
            code@.len() == 16,
            acc == hex_prefix_val(code@, i as int),
            forall|j: int| 0 <= j < i ==> hex_val(#[trigger] code@[j]) < 16,
            0 <= acc < pow16(i as int),
            pow16(16) == 0x1_0000_0000_0000_0000,
    {
        proof {
            assert(pow16(i as int) <= pow16(15)) by {
                lemma_pow16_mono(i as int, 15);
            }
        }
        let b = code[i];
        let d: u64 = if 48 <= b && b <= 57 {
            (b - 48) as u64
        } else if 97 <= b && b <= 102 {
            (b - 87) as u64
        } else if 65 <= b && b <= 70 {
            (b - 55) as u64
        } else {
            return None;
        };
        proof {
            assert(acc * 16 + d < pow16(i as int + 1)) by {
                assert(acc < pow16(i as int));
                assert(acc * 16 <= (pow16(i as int) - 1) * 16) by (nonlinear_arith)
                    requires
                        acc < pow16(i as int),
                        0 <= acc,
                ;
            }
            assert(pow16(i as int + 1) <= pow16(16)) by {
                lemma_pow16_mono(i as int + 1, 16);
            }
        }
        acc = acc * 16 + d;
    }
    Some(acc)
}

/// Writes a chat id as its join code: exactly sixteen lowercase hex
/// digits, most significant first. [`parse_chat_code`] accepts exactly
/// these strings and recovers the id.
pub fn format_chat_code(id: u64) -> (r: Vec<u8>)
    ensures
        r@.len() == 16,
        all_hex(r@),
        hex_prefix_val(r@, 16) == id,
{
    let mut r: Vec<u8> = Vec::new();
    let mut p: u64 = 0x1000_0000_0000_0000;
    let mut rem: u64 = id;
    proof {
        assert(pow16(15) == 0x1000_0000_0000_0000) by {
            assert(pow16(0) == 1);
            assert(pow16(1) == 16);
            assert(pow16(2) == 0x100);
            assert(pow16(3) == 0x1000);
            assert(pow16(4) == 0x1_0000);
            assert(pow16(5) == 0x10_0000);
            assert(pow16(6) == 0x100_0000);
            assert(pow16(7) == 0x1000_0000);
            assert(pow16(8) == 0x1_0000_0000);
            assert(pow16(9) == 0x10_0000_0000);
            assert(pow16(10) == 0x100_0000_0000);
            assert(pow16(11) == 0x1000_0000_0000);
            assert(pow16(12) == 0x1_0000_0000_0000);
            assert(pow16(13) == 0x10_0000_0000_0000);
            assert(pow16(14) == 0x100_0000_0000_0000);
        }
    }
    for i in 0..16usize
        invariant
            r@.len() == i,
            all_hex(r@),
            i < 16 ==> p == pow16(15 - i),
            rem < pow16(16 - i),
            hex_prefix_val(r@, i as int) * pow16(16 - i) + rem == id,
    {
        proof {
            assert(pow16(16 - i) == 16 * pow16(15 - i));
            assert(rem / p < 16) by (nonlinear_arith)
                requires
                    rem < 16 * p,
                    p >= 1,
            {
            }
            assert(p >= 1) by {
                lemma_pow16_pos(15 - i as int);
            }
        }
        let digit = rem / p;
        let next_rem = rem % p;
        let b: u8 = if digit < 10 {
            (48 + digit) as u8
        } else {
            (87 + digit) as u8
        };
        let ghost pre = r@;
        let ghost val = hex_prefix_val(pre, i as int);
        r.push(b);
        proof {
            assert(hex_val(b) == digit);
            assert(r@ =~= pre.push(b));
            assert(forall|j: int| 0 <= j < i ==> r@[j] == pre[j]);
            assert(hex_prefix_val(r@, i + 1) == hex_prefix_val(r@, i as int) * 16 + hex_val(b));
            assert(hex_prefix_val(r@, i as int) == val) by {
                lemma_hex_prefix_same(pre, r@, i as int);
            }
            assert(rem == digit * p + next_rem);
            assert((val * 16 + digit) * pow16(15 - i) == val * (16 * pow16(15 - i)) + digit * pow16(
                15 - i,
            )) by (nonlinear_arith);
            assert(hex_prefix_val(r@, i + 1) * pow16(16 - (i + 1)) + next_rem == id);
        }
        rem = next_rem;
        if i < 15 {
            p = p / 16;
            proof {
                assert(pow16(15 - i) == 16 * pow16(14 - i));
                assert(pow16(15 - i) / 16 == pow16(14 - i)) by (nonlinear_arith)
                    requires
                        pow16(15 - i) == 16 * pow16(14 - i),
                        pow16(14 - i) >= 0,
                {
                }
                assert(pow16(14 - i) >= 1) by {
                    lemma_pow16_pos(14 - i as int);
                }
            }
        }
    }
    proof {
        assert(pow16(0) == 1);
        assert(rem == 0);
        assert(hex_prefix_val(r@, 16) * 1 == hex_prefix_val(r@, 16)) by (nonlinear_arith);
    }
    r
}

/// A longer sequence with the same first `i` digits has the same prefix
/// value.
proof fn lemma_hex_prefix_same(a: Seq<u8>, b: Seq<u8>, i: int)
    requires
        0 <= i,
        forall|j: int| 0 <= j < i ==> a[j] == b[j],
    ensures
        hex_prefix_val(a, i) == hex_prefix_val(b, i),
    decreases i,
{
    if i > 0 {
        lemma_hex_prefix_same(a, b, i - 1);
    }
}

/// `pow16` grows with its exponent.
proof fn lemma_pow16_mono(a: int, b: int)
    requires
        0 <= a <= b,
    ensures
        pow16(a) <= pow16(b),
    decreases b,
{
    if a < b {
        lemma_pow16_mono(a, b - 1);
        assert(pow16(b) == 16 * pow16(b - 1));
        assert(pow16(b - 1) >= 1) by {
            lemma_pow16_pos(b - 1);
        }
    }
}

/// `pow16` is positive.
proof fn lemma_pow16_pos(i: int)
    ensures
        pow16(i) >= 1,
    decreases i,
{
    if i > 0 {
        lemma_pow16_pos(i - 1);
    }
}

/// A message is sent only when its body is non-empty: the guard returns
/// the request payload exactly for non-empty input, as the send form does
/// nothing for an empty input field.
pub fn prepare_send_message(chat_id: u64, content: Vec<u8>) -> (r: Option<ClientPayload>)
    ensures
        content@.len() == 0 ==> r is None,
        content@.len() > 0 ==> (r matches Some(p) && p@ == (ClientPayloadView::SendMessage {
            chat_id,
            content: content@,
        })),
{
    if content.len() == 0 {
        None
    } else {
        Some(ClientPayload::SendMessage { chat_id, content })
    }
}

/// A chat is created only under a non-empty name: the guard returns the
/// request payload exactly for non-empty input, as the create form does
/// nothing for an empty name field.
pub fn prepare_create_chat(name: Vec<u8>) -> (r: Option<ClientPayload>)
    ensures
        name@.len() == 0 ==> r is None,
        name@.len() > 0 ==> (r matches Some(p) && p@ == (ClientPayloadView::CreateChat {
            name: name@,
        })),
{
    if name.len() == 0 {
        None
    } else {
        Some(ClientPayload::CreateChat { name })
    }
}

/// The creation time of the oldest loaded message of a chat: the bound for
/// the next history fetch, or nothing when the window is empty.
pub fn oldest_loaded(chat: &Chat) -> (r: Option<u64>)
    ensures
        chat@.messages.len() == 0 ==> r is None,
        chat@.messages.len() > 0 ==> r == Some(chat@.messages[0].created_at),
{
    if chat.messages.len() == 0 {
        None
    } else {
        Some(chat.messages[0].created_at)
    }
}

/// Whether the given participant still has unread activity in the chat:
/// their read receipt differs from the chat's newest activity. Unknown
/// participants have nothing unread.
pub fn chat_unread(chat: &Chat, user_id: u64) -> (r: bool)
    ensures
        r == (exists|u: int|
            crate::cache::first_user_at(chat@.users, user_id, u) && chat@.users[u].last_message_seen_ts
                != chat@.last_message_ts),
        !has_user(chat@.users, user_id) ==> !r,
{
    let n = chat.users.len();
    for k in 0..n
        invariant
            n == chat.users.len(),
            forall|i: int| 0 <= i < k ==> views_of_users(chat.users@)[i].id != user_id,
    {
        if chat.users[k].id == user_id {
            let r = chat.users[k].last_message_seen_ts != chat.last_message_ts;
            proof {
                assert(crate::cache::first_user_at(chat@.users, user_id, k as int));
            }
            return r;
        }
    }
    false
}

/// One sidebar row per chat, in cache order: the chat's display name, its
/// id, and whether it is the chat under view.
pub fn sidebar_entries(chats: &Vec<Chat>, selected: Option<u64>) -> (r: Vec<(Vec<u8>, u64, bool)>)
    ensures
        r@.len() == chats@.len(),
        forall|i: int|
            0 <= i < r@.len() ==> {
                &&& (#[trigger] r@[i]).0@ == views_of_chats(chats@)[i].name
                &&& r@[i].1 == views_of_chats(chats@)[i].id
                &&& r@[i].2 == (selected == Some(views_of_chats(chats@)[i].id))
            },
{
    let n = chats.len();
    let mut r: Vec<(Vec<u8>, u64, bool)> = Vec::new();
    for k in 0..n
        invariant
            n == chats.len(),
            r@.len() == k,
            forall|i: int|
                0 <= i < k ==> {
                    &&& (#[trigger] r@[i]).0@ == views_of_chats(chats@)[i].name
                    &&& r@[i].1 == views_of_chats(chats@)[i].id
                    &&& r@[i].2 == (selected == Some(views_of_chats(chats@)[i].id))
                },
    {
        let is_selected = match selected {
            Some(id) => id == chats[k].id,
            None => false,
        };
        r.push((clone_bytes(&chats[k].name), chats[k].id, is_selected));
    }
    r
}

} // verus!
