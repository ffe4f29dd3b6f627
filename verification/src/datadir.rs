//! The names of an imposter's files in its data directory.

use crate::text;
use vstd::prelude::*;

verus! {

/// The name of the file with an imposter's state.
pub open spec fn data_file(port: u16) -> Seq<char> {
    text::decimal(port as nat) + ".json"@
}

/// The name of the file a write of that state goes to first.
pub open spec fn temp_file(port: u16) -> Seq<char> {
    text::decimal(port as nat) + ".json.tmp"@
}

/// The name of the file with an imposter's state.
pub fn data_name(port: u16) -> (r: String)
    ensures
        r@ == data_file(port),
{
    let mut s: String = text::decimal_text(port as u64);
    s.append(".json");
    s
}

/// The name of the file a write of that state goes to first.
pub fn temp_name(port: u16) -> (r: String)
    ensures
        r@ == temp_file(port),
{
    let mut s: String = text::decimal_text(port as u64);
    s.append(".json.tmp");
    s
}

/// Whether a file is a write that was not finished: its name is exactly that of some port's
/// temporary file, with no sign and no leading zero.
pub fn is_interrupted_write(name: &str) -> (r: Option<u16>)
    ensures
        (match r {
            Some(port) => name@ == temp_file(port),
            None => forall|port: u16| #[trigger] temp_file(port) != name@,
        }),
{
    let chars: Vec<char> = text::chars_of(name);
    let n: usize = chars.len();
    proof {
        reveal_strlit(".json.tmp");
        assert forall|port: u16| #[trigger] temp_file(port) == name@ implies n >= 9
            && text::decimal(port as nat) == name@.take(n - 9) && ".json.tmp"@ == name@.skip(n - 9) by {
            assert(temp_file(port).take(n - 9) =~= text::decimal(port as nat));
            assert(temp_file(port).skip(n - 9) =~= ".json.tmp"@);
        }
    }
    if n < 9 {
        return None;
    }
    let stem: String = text::text_of(&chars, 0, n - 9);
    let suffix: String = text::text_of(&chars, n - 9, n);
    proof {
        assert(name@.subrange(0, n - 9) =~= name@.take(n - 9));
        assert(name@.subrange(n - 9, n as int) =~= name@.skip(n - 9));
        assert(name@.take(n - 9) + name@.skip(n - 9) =~= name@);
    }
    if !text::same_text(suffix.as_str(), ".json.tmp") {
        return None;
    }
    match text::parse_decimal(stem.as_str()) {
        Some(k) => if k <= 65535 {
            Some(k as u16)
        } else {
            proof {
                assert forall|port: u16| #[trigger] temp_file(port) != name@ by {
                    if temp_file(port) == name@ {
                        text::lemma_decimal_injective(port as nat, k as nat);
                    }
                }
            }
            None
        },
        None => {
            proof {
                assert forall|port: u16| #[trigger] temp_file(port) != name@ by {
                    if temp_file(port) == name@ {
                        let k: u64 = port as u64;
                        assert(text::decimal(k as nat) == stem@);
                    }
                }
            }
            None
        },
    }
}

/// A temporary file names its port, and no state file is taken for one.
pub proof fn law_temp_names_are_told_apart(a: u16, b: u16)
    ensures
        temp_file(a) == temp_file(b) ==> a == b,
        temp_file(a) != data_file(b),
{
    reveal_strlit(".json.tmp");
    reveal_strlit(".json");
    if temp_file(a) == temp_file(b) {
        let n = temp_file(a).len();
        assert(temp_file(a).take(n - 9) =~= text::decimal(a as nat));
        assert(temp_file(b).take(n - 9) =~= text::decimal(b as nat));
        text::lemma_decimal_injective(a as nat, b as nat);
    }
    assert(temp_file(a).last() == 'p');
    assert(data_file(b).last() == 'n');
}

/// A port's state is kept under the port's number, and no two ports share a file.
pub proof fn law_state_files_are_told_apart(a: u16, b: u16)
    ensures
        data_file(a) == text::decimal(a as nat) + ".json"@,
        temp_file(a) == data_file(a) + ".tmp"@,
        data_file(a) == data_file(b) ==> a == b,
{
    reveal_strlit(".json.tmp");
    reveal_strlit(".json");
    reveal_strlit(".tmp");
    assert(temp_file(a) =~= data_file(a) + ".tmp"@);
    if data_file(a) == data_file(b) {
        let n = data_file(a).len();
        assert(data_file(a).take(n - 5) =~= text::decimal(a as nat));
        assert(data_file(b).take(n - 5) =~= text::decimal(b as nat));
        text::lemma_decimal_injective(a as nat, b as nat);
    }
}

} // verus!
