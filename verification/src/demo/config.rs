//! The fixed network layout every node is born knowing.
//!
//! The address table decides where to look for a member, never whether a signature
//! is good: every signature that counts is checked against the anchor's key.
use crate::text::{chars_of, decimal, is_text, parse_u64, parse_upto, push_decimal};
use vstd::prelude::*;
use vstd::string::*;

verus! {

/// Committee size.
pub const N_MEMBERS: usize = 10;

/// How many distinct members must sign an update.
pub const THRESHOLD: usize = 7;

/// Where each member lives. The position in this table is the committee index.
pub const MEMBER_IPS: [&'static str; 10] = [
    "172.28.0.11",
    "172.28.0.12",
    "172.28.0.13",
    "172.28.0.14",
    "172.28.0.15",
    "172.28.0.16",
    "172.28.0.17",
    "172.28.0.18",
    "172.28.0.19",
    "172.28.0.20",
];

/// The port every member listens on.
pub const MEMBER_PORT: u16 = 9000;

/// The relying party's address.
pub const HOLDER_IP: &'static str = "172.28.0.30";

/// The port the relying party takes triggers on.
pub const HOLDER_PORT: u16 = 9100;

/// Which form the aggregator publishes, and therefore how the holder verifies.
#[derive(Clone, Copy, PartialEq, Eq, Structural, Debug)]
pub enum Mode {
    /// Raw signatures and the bitmap naming their signers.
    Raw,
    /// One aggregated proof.
    Snark,
}

impl Mode {
    /// The mode a setting names; raw where there is no setting. Anything else names
    /// none: a typing error must not select the other form in silence.
    pub fn from_env(setting: Option<&str>) -> (mode: Option<Mode>)
        ensures
            mode == match setting {
                None => Some(Mode::Raw),
                Some(s) => if s@ == "snark"@ {
                    Some(Mode::Snark)
                } else if s@ == "raw"@ {
                    Some(Mode::Raw)
                } else {
                    None
                },
            },
    {
        match setting {
            None => Some(Mode::Raw),
            Some(s) => {
                let chars = chars_of(s);
                if is_text(chars.as_slice(), "snark") {
                    Some(Mode::Snark)
                } else if is_text(chars.as_slice(), "raw") {
                    Some(Mode::Raw)
                } else {
                    None
                }
            },
        }
    }

    /// The name of the mode.
    pub open spec fn name(self) -> Seq<char> {
        match self {
            Mode::Raw => "raw"@,
            Mode::Snark => "snark"@,
        }
    }

    pub fn as_str(self) -> (name: &'static str)
        ensures
            name@ == self.name(),
    {
        match self {
            Mode::Raw => "raw",
            Mode::Snark => "snark",
        }
    }
}

/// The committee index of the member at `ip`, or nothing for a stranger. An
/// address outside the table cannot contribute a signature: there is no index to
/// record it under.
pub fn index_of_ip(ip: &str) -> (index: Option<usize>)
    ensures
        match index {
            Some(i) => i < N_MEMBERS && MEMBER_IPS@[i as int]@ == ip@ && forall|j: int|
                0 <= j < i ==> (#[trigger] MEMBER_IPS@[j])@ != ip@,
            None => forall|j: int| 0 <= j < N_MEMBERS ==> (#[trigger] MEMBER_IPS@[j])@ != ip@,
        },
{
    let chars = chars_of(ip);
    let table: [&'static str; 10] = MEMBER_IPS;
    let mut i: usize = 0;
    while i < N_MEMBERS
        invariant
            i <= N_MEMBERS,
            chars@ == ip@,
            table == MEMBER_IPS,
            forall|j: int| 0 <= j < i ==> (#[trigger] MEMBER_IPS@[j])@ != ip@,
        decreases N_MEMBERS - i,
    {
        if is_text(chars.as_slice(), table[i]) {
            return Some(i);
        }
        i = i + 1;
    }
    None
}

/// Where member `index` listens.
pub fn member_addr(index: usize) -> (addr: String)
    requires
        index < N_MEMBERS,
    ensures
        addr@ == MEMBER_IPS@[index as int]@ + ":"@ + decimal(MEMBER_PORT as nat),
{
    let table: [&'static str; 10] = MEMBER_IPS;
    let mut addr: String = table[index].to_owned();
    addr.append(":");
    push_decimal(&mut addr, MEMBER_PORT as u64);
    addr
}

/// Where the relying party listens for triggers.
pub fn holder_addr() -> (addr: String)
    ensures
        addr@ == HOLDER_IP@ + ":"@ + decimal(HOLDER_PORT as nat),
{
    let mut addr: String = HOLDER_IP.to_owned();
    addr.append(":");
    push_decimal(&mut addr, HOLDER_PORT as u64);
    addr
}

/// The number a setting spells, or the default where there is none.
pub open spec fn setting_or(setting: Option<&str>, default: u64) -> u64 {
    match setting {
        None => default,
        Some(s) => match parse_upto(s@, u64::MAX as nat) {
            Some(n) => n as u64,
            None => default,
        },
    }
}

/// The number a setting spells, or the default where there is none.
pub fn env_u64(setting: Option<&str>, default: u64) -> (n: u64)
    ensures
        n == setting_or(setting, default),
{
    match setting {
        None => default,
        Some(s) => {
            let chars = chars_of(s);
            match parse_u64(chars.as_slice()) {
                Some(n) => n,
                None => default,
            }
        },
    }
}

/// How many milliseconds the aggregator waits for signatures before giving up on
/// a round. The round ends earlier once enough have arrived.
pub fn sign_window(setting: Option<&str>) -> (ms: u64)
    ensures
        ms == setting_or(setting, 5_000),
{
    env_u64(setting, 5_000)
}

/// How many seconds a holder waits for its credential.
pub fn request_timeout(setting: Option<&str>) -> (s: u64)
    ensures
        s == setting_or(setting, 900),
{
    env_u64(setting, 900)
}

/// The members that can aggregate: all of them on the raw path, those configured as
/// provers on the other.
pub open spec fn aggregators(mode: Mode, provers: Seq<usize>) -> Seq<usize> {
    match mode {
        Mode::Raw => Seq::new(N_MEMBERS as nat, |i: int| i as usize),
        Mode::Snark => provers,
    }
}

/// The members that can aggregate.
pub fn aggregator_indices(mode: Mode, provers: &[usize]) -> (indices: Vec<usize>)
    ensures
        indices@ == aggregators(mode, provers@),
{
    let mut indices: Vec<usize> = Vec::new();
    match mode {
        Mode::Raw => {
            let mut i: usize = 0;
            while i < N_MEMBERS
                invariant
                    i <= N_MEMBERS,
                    indices@.len() == i,
                    forall|j: int| 0 <= j < i ==> #[trigger] indices@[j] == j,
                decreases N_MEMBERS - i,
            {
                indices.push(i);
                i = i + 1;
            }
            assert(indices@ =~= aggregators(mode, provers@));
        },
        Mode::Snark => {
            let mut i: usize = 0;
            while i < provers.len()
                invariant
                    i <= provers@.len(),
                    indices@ == provers@.subrange(0, i as int),
                decreases provers@.len() - i,
            {
                indices.push(provers[i]);
                i = i + 1;
                assert(indices@ =~= provers@.subrange(0, i as int));
            }
            assert(indices@ =~= provers@);
        },
    }
    indices
}

/// Whether `index` is one of `indices`.
pub fn contains_index(indices: &[usize], index: usize) -> (r: bool)
    ensures
        r == indices@.contains(index),
{
    let mut i: usize = 0;
    while i < indices.len()
        invariant
            i <= indices@.len(),
            forall|j: int| 0 <= j < i ==> #[trigger] indices@[j] != index,
        decreases indices@.len() - i,
    {
        if indices[i] == index {
            return true;
        }
        i = i + 1;
    }
    false
}

/// Whether member `index` can aggregate.
pub fn can_aggregate(mode: Mode, provers: &[usize], index: usize) -> (r: bool)
    ensures
        r == aggregators(mode, provers@).contains(index),
{
    let indices = aggregator_indices(mode, provers);
    contains_index(indices.as_slice(), index)
}

/// The first `n` of some indices, separated by commas.
pub open spec fn index_list(indices: Seq<usize>, n: int) -> Seq<char>
    decreases n,
{
    if n <= 0 {
        Seq::empty()
    } else if n == 1 {
        decimal(indices[0] as nat)
    } else {
        index_list(indices, n - 1) + ", "@ + decimal(indices[n - 1] as nat)
    }
}

/// Some indices, separated by commas.
pub fn format_indices(indices: &[usize]) -> (text: String)
    ensures
        text@ == index_list(indices@, indices@.len() as int),
{
    let mut text: String = String::new();
    let mut i: usize = 0;
    assert(text@ =~= Seq::<char>::empty());
    while i < indices.len()
        invariant
            i <= indices@.len(),
            text@ == index_list(indices@, i as int),
        decreases indices@.len() - i,
    {
        let ghost before = text@;
        if i > 0 {
            text.append(", ");
        }
        push_decimal(&mut text, indices[i] as u64);
        i = i + 1;
        assert(text@ =~= index_list(indices@, i as int));
    }
    text
}

/// No two members share an address: an address names at most one index.
pub proof fn law_an_address_names_one_member(i: int, j: int)
    requires
        0 <= i < N_MEMBERS,
        0 <= j < N_MEMBERS,
        MEMBER_IPS@[i]@ == MEMBER_IPS@[j]@,
    ensures
        i == j,
{
    lemma_last_digit(i);
    lemma_last_digit(j);
}

/// The last character of a member's address is the last digit of its place.
proof fn lemma_last_digit(i: int)
    requires
        0 <= i < N_MEMBERS,
    ensures
        MEMBER_IPS@[i]@[10] == crate::text::digit((i + 1) % 10),
{
    if i == 0 {
        reveal_strlit("172.28.0.11");
        assert(MEMBER_IPS@[0]@[10] == '1');
    } else if i == 1 {
        reveal_strlit("172.28.0.12");
        assert(MEMBER_IPS@[1]@[10] == '2');
    } else if i == 2 {
        reveal_strlit("172.28.0.13");
        assert(MEMBER_IPS@[2]@[10] == '3');
    } else if i == 3 {
        reveal_strlit("172.28.0.14");
        assert(MEMBER_IPS@[3]@[10] == '4');
    } else if i == 4 {
        reveal_strlit("172.28.0.15");
        assert(MEMBER_IPS@[4]@[10] == '5');
    } else if i == 5 {
        reveal_strlit("172.28.0.16");
        assert(MEMBER_IPS@[5]@[10] == '6');
    } else if i == 6 {
        reveal_strlit("172.28.0.17");
        assert(MEMBER_IPS@[6]@[10] == '7');
    } else if i == 7 {
        reveal_strlit("172.28.0.18");
        assert(MEMBER_IPS@[7]@[10] == '8');
    } else if i == 8 {
        reveal_strlit("172.28.0.19");
        assert(MEMBER_IPS@[8]@[10] == '9');
    } else if i == 9 {
        reveal_strlit("172.28.0.20");
        assert(MEMBER_IPS@[9]@[10] == '0');
    }
}

/// In raw mode every member of the committee can aggregate, once, in order; in the other
/// mode the configured provers can, as they are configured, and nobody else.
pub proof fn law_who_can_aggregate(mode: Mode, provers: Seq<usize>, index: usize)
    ensures
        mode == Mode::Raw ==> (aggregators(mode, provers).contains(index) <==> index < N_MEMBERS),
        mode == Mode::Raw ==> aggregators(mode, provers).len() == N_MEMBERS && forall|i: int|
            0 <= i < N_MEMBERS ==> #[trigger] aggregators(mode, provers)[i] == i,
        mode == Mode::Snark ==> (aggregators(mode, provers).contains(index) <==> provers.contains(
            index,
        )),
        mode == Mode::Snark ==> aggregators(mode, provers).len() == provers.len() && forall|i: int|
            0 <= i < provers.len() ==> #[trigger] aggregators(mode, provers)[i] == provers[i],
{
    if mode == Mode::Raw {
        let able = aggregators(mode, provers);
        if index < N_MEMBERS {
            assert(able[index as int] == index);
        }
        if able.contains(index) {
            let k = choose|k: int| 0 <= k < able.len() && able[k] == index;
            assert(index == k);
        }
    }
}

/// A setting that spells a number is that number; without a setting, and for one that
/// spells none that fits, the default stands.
pub proof fn law_a_setting_is_its_number_or_the_default(setting: &str, n: u64, default: u64)
    ensures
        setting@ == decimal(n as nat) ==> setting_or(Some(setting), default) == n,
        parse_upto(setting@, u64::MAX as nat) is None ==> setting_or(Some(setting), default)
            == default,
        parse_upto(setting@, u64::MAX as nat) is Some ==> setting_or(Some(setting), default)
            == parse_upto(setting@, u64::MAX as nat)->0,
        setting_or(None, default) == default,
{
    crate::text::lemma_parse_decimal(n as nat);
}

/// A list of indices shows every one of them in order, with a comma and a space between
/// two: one more index is shown behind the others.
pub proof fn law_a_list_shows_its_indices_in_order(indices: Seq<usize>, last: usize)
    ensures
        index_list(Seq::empty(), 0) == Seq::<char>::empty(),
        ({
            let longer = indices.push(last);
            index_list(longer, longer.len() as int) == if indices.len() == 0 {
                decimal(last as nat)
            } else {
                index_list(indices, indices.len() as int) + ", "@ + decimal(last as nat)
            }
        }),
{
    let longer = indices.push(last);
    lemma_index_list_prefix(indices, longer, indices.len() as int);
}

proof fn lemma_index_list_prefix(a: Seq<usize>, b: Seq<usize>, n: int)
    requires
        0 <= n <= a.len(),
        n <= b.len(),
        forall|i: int| 0 <= i < n ==> a[i] == b[i],
    ensures
        index_list(a, n) == index_list(b, n),
    decreases n,
{
    if n > 1 {
        lemma_index_list_prefix(a, b, n - 1);
    }
}

/// A member is found by its own address, at its own index, and no other address is a
/// member's.
pub proof fn law_a_member_is_found_by_its_address(ip: &str, i: int, index: Option<usize>)
    requires
        call_ensures(index_of_ip, (ip,), index),
    ensures
        0 <= i < 10 && ip@ == MEMBER_IPS@[i]@ ==> index is Some && index->0 == i,
        index is Some ==> index->0 < 10 && ip@ == MEMBER_IPS@[index->0 as int]@,
        index is None ==> forall|j: int| 0 <= j < 10 ==> (#[trigger] MEMBER_IPS@[j])@ != ip@,
{
    if 0 <= i < 10 && ip@ == MEMBER_IPS@[i]@ {
        law_an_address_names_one_member(i, index->0 as int);
    }
}

/// The name of a mode selects that mode; no setting selects the raw one, and a text that is
/// no mode's name selects none.
pub proof fn law_a_mode_is_selected_by_its_name(
    mode: Mode,
    text: &str,
    selected: Option<Mode>,
    without: Option<Mode>,
)
    requires
        call_ensures(Mode::from_env, (Some(text),), selected),
        call_ensures(Mode::from_env, (None,), without),
    ensures
        text@ == mode.name() ==> selected == Some(mode),
        selected is Some ==> text@ == (selected->0).name(),
        without == Some(Mode::Raw),
{
    reveal_strlit("raw");
    reveal_strlit("snark");
    assert("raw"@.len() == 3 && "snark"@.len() == 5);
}

} // verus!
