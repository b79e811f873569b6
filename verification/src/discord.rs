//! Building a Discord message reference link from its three identifiers.

use vstd::prelude::*;
use vstd::string::*;

verus! {

/// The character of one decimal digit.
pub open spec fn digit_char(d: nat) -> char {
    if d == 0 {
        '0'
    } else if d == 1 {
        '1'
    } else if d == 2 {
        '2'
    } else if d == 3 {
        '3'
    } else if d == 4 {
        '4'
    } else if d == 5 {
        '5'
    } else if d == 6 {
        '6'
    } else if d == 7 {
        '7'
    } else if d == 8 {
        '8'
    } else {
        '9'
    }
}

/// The decimal digits of a number, most significant first.
pub open spec fn dec_digits(n: nat) -> Seq<char>
    decreases n,
{
    if n < 10 {
        seq![digit_char(n)]
    } else {
        dec_digits(n / 10).push(digit_char(n % 10))
    }
}

fn digit_str(d: u64) -> (r: &'static str)
    requires
        d < 10,
    ensures
        r@ == seq![digit_char(d as nat)],
{
    proof {
        reveal_strlit("0");
        reveal_strlit("1");
        reveal_strlit("2");
        reveal_strlit("3");
        reveal_strlit("4");
        reveal_strlit("5");
        reveal_strlit("6");
        reveal_strlit("7");
        reveal_strlit("8");
        reveal_strlit("9");
    }
    let r = if d == 0 {
        "0"
    } else if d == 1 {
        "1"
    } else if d == 2 {
        "2"
    } else if d == 3 {
        "3"
    } else if d == 4 {
        "4"
    } else if d == 5 {
        "5"
    } else if d == 6 {
        "6"
    } else if d == 7 {
        "7"
    } else if d == 8 {
        "8"
    } else {
        "9"
    };
    proof {
        assert(r@ =~= seq![digit_char(d as nat)]);
    }
    r
}

/// Format a number in decimal.
pub fn u64_to_dec(x: u64) -> (s: String)
    ensures
        s@ == dec_digits(x as nat),
    decreases x,
{
    if x < 10 {
        String::from_str(digit_str(x))
    } else {
        let mut s = u64_to_dec(x / 10);
        s.append(digit_str(x % 10));
        proof {
            assert(dec_digits((x / 10) as nat) + seq![digit_char((x % 10) as nat)] =~= dec_digits(
                (x / 10) as nat,
            ).push(digit_char((x % 10) as nat)));
        }
        s
    }
}

/// The link to a message: the channels URL with the guild, channel and
/// message identifiers in decimal.
pub open spec fn spec_msg_ref(guild_id: u64, channel_id: u64, message_id: u64) -> Seq<char> {
    "https://discord.com/channels/"@ + dec_digits(guild_id as nat) + "/"@ + dec_digits(
        channel_id as nat,
    ) + "/"@ + dec_digits(message_id as nat)
}

/// Build the link to a message from the guild, channel and message
/// identifiers.
pub fn construct_msg_ref(guild_id: u64, channel_id: u64, message_id: u64) -> (r: String)
    ensures
        r@ == spec_msg_ref(guild_id, channel_id, message_id),
{
    let mut s = String::from_str("https://discord.com/channels/");
    let g = u64_to_dec(guild_id);
    s.append(g.as_str());
    s.append("/");
    let c = u64_to_dec(channel_id);
    s.append(c.as_str());
    s.append("/");
    let m = u64_to_dec(message_id);
    s.append(m.as_str());
    s
}

} // verus!
