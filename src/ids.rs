//! Seven-digit session identities: minting, parsing and the mapping from an
//! identity to the session that uses it.
use vstd::prelude::*;
use rand::Rng;
use crate::util::{decimal, digit_char, digit_value, is_digit, chars_of, string_of, push_decimal, same_text};

verus! {

/// Smallest seven-digit identity.
pub const ID_MIN: u32 = 1_000_000;
/// One past the largest seven-digit identity.
pub const ID_END: u32 = 10_000_000;
/// How many random draws minting makes before it gives up.
pub const MAX_ATTEMPTS: usize = 1000;

#[derive(Debug, Clone)]
pub struct ConnectionId {
    pub id: String,
    pub numeric_id: u32,
    pub formatted_id: String,
}

#[derive(Debug, Clone, Copy, PartialEq, Eq, Structural)]
pub enum IdError {
    /// The text is not seven decimal digits once separators are removed.
    InvalidFormat,
    /// Every draw hit an identity already in use.
    Exhausted,
}

/// A separator that parsing skips: ASCII whitespace or a hyphen.
pub open spec fn is_separator(c: char) -> bool {
    c == ' ' || c == '\t' || c == '\n' || c == '\r' || c == '\x0c' || c == '-'
}

/// The text with its separators removed.
pub open spec fn cleaned(s: Seq<char>) -> Seq<char>
    decreases s.len(),
{
    if s.len() == 0 {
        s
    } else {
        let c = cleaned(s.drop_last());
        if is_separator(s.last()) { c } else { c.push(s.last()) }
    }
}

pub open spec fn all_digits(s: Seq<char>) -> bool {
    forall|i: int| 0 <= i < s.len() ==> is_digit(#[trigger] s[i])
}

/// Whether a text names an identity: exactly seven ASCII digits once
/// whitespace and hyphens are removed.
pub open spec fn valid_id_text(s: Seq<char>) -> bool {
    cleaned(s).len() == 7 && all_digits(cleaned(s))
}

/// The number that a string of decimal digits spells.
pub open spec fn digits_value(s: Seq<char>) -> nat
    decreases s.len(),
{
    if s.len() == 0 {
        0
    } else {
        digits_value(s.drop_last()) * 10 + digit_value(s.last())
    }
}

pub open spec fn pow10(n: nat) -> nat
    decreases n,
{
    if n == 0 { 1 } else { 10 * pow10((n - 1) as nat) }
}

/// The session registered last under a key, if any.
pub open spec fn lookup(s: Seq<(String, String)>, key: Seq<char>) -> Option<Seq<char>>
    decreases s.len(),
{
    if s.len() == 0 {
        None
    } else if s.last().0@ == key {
        Some(s.last().1@)
    } else {
        lookup(s.drop_last(), key)
    }
}

proof fn lemma_digits_value_bound(s: Seq<char>)
    requires
        all_digits(s),
    ensures
        digits_value(s) < pow10(s.len()),
    decreases s.len(),
{
    if s.len() > 0 {
        let t = s.drop_last();
        assert(all_digits(t)) by {
            assert forall|i: int| 0 <= i < t.len() implies is_digit(#[trigger] t[i]) by {
                assert(t[i] == s[i]);
            }
        }
        lemma_digits_value_bound(t);
        assert(is_digit(s[s.len() - 1]));
        assert(digit_value(s.last()) < 10);
    }
}

proof fn lemma_decimal_digits(n: nat)
    ensures
        all_digits(decimal(n)),
        digits_value(decimal(n)) == n,
        cleaned(decimal(n)) == decimal(n),
        decimal(n).len() >= 1,
    decreases n,
{
    if n >= 10 {
        lemma_decimal_digits(n / 10);
        let s = decimal(n);
        assert(s.drop_last() =~= decimal(n / 10));
        assert(s.last() == digit_char(n % 10));
        assert(digit_value(digit_char(n % 10)) == n % 10);
        assert(digits_value(s) == digits_value(decimal(n / 10)) * 10 + n % 10);
        assert((n / 10) * 10 + n % 10 == n);
    }
    let s = decimal(n);
    let d = if n < 10 { n } else { n % 10 };
    assert(s.last() == digit_char(d));
    assert(is_digit(digit_char(d)) && digit_value(digit_char(d)) == d);
    if n < 10 {
        assert(s.drop_last() =~= Seq::<char>::empty());
        assert(digits_value(s.drop_last()) == 0);
        assert(digits_value(s) == n);
        assert(cleaned(s.drop_last()) =~= Seq::<char>::empty());
        assert(s =~= Seq::<char>::empty().push(s.last()));
    }
    assert forall|i: int| 0 <= i < s.len() implies is_digit(#[trigger] s[i]) by {
        if i < s.len() - 1 {
            assert(s[i] == s.drop_last()[i]);
        }
    }
    assert(s =~= s.drop_last().push(s.last()));
}

proof fn lemma_decimal_len(n: nat, k: nat)
    requires
        pow10(k) <= n < pow10(k + 1),
    ensures
        decimal(n).len() == k + 1,
    decreases k,
{
    if k > 0 {
        assert(n >= 10) by {
            assert(pow10(k) >= 10) by {
                lemma_pow10_pos((k - 1) as nat);
            }
        }
        assert(pow10(k) == 10 * pow10((k - 1) as nat));
        assert(pow10(k + 1) == 10 * pow10(k));
        lemma_decimal_len(n / 10, (k - 1) as nat);
    } else {
        assert(pow10(1) == 10) by {
            reveal_with_fuel(pow10, 2);
        }
    }
}

proof fn lemma_pow10_pos(k: nat)
    ensures
        pow10(k) >= 1,
    decreases k,
{
    if k > 0 {
        lemma_pow10_pos((k - 1) as nat);
    }
}

/// Formatting then parsing gives back every seven-digit identity: its text is
/// seven digits with no separators, parsing accepts it, and the value read is
/// the identity itself.
pub proof fn lemma_format_then_parse(n: u32)
    requires
        ID_MIN <= n < ID_END,
    ensures
        decimal(n as nat).len() == 7,
        all_digits(decimal(n as nat)),
        forall|i: int| 0 <= i < decimal(n as nat).len() ==> !is_separator(#[trigger] decimal(n as nat)[i]),
        valid_id_text(decimal(n as nat)),
        digits_value(cleaned(decimal(n as nat))) == n,
{
    assert(pow10(6) == 1_000_000 && pow10(7) == 10_000_000) by {
        reveal_with_fuel(pow10, 8);
    }
    lemma_decimal_len(n as nat, 6);
    lemma_decimal_digits(n as nat);
    let s = decimal(n as nat);
    assert forall|i: int| 0 <= i < s.len() implies !is_separator(#[trigger] s[i]) by {
        assert(is_digit(s[i]));
    }
}

proof fn lemma_push_contains(s: Seq<u32>, v: u32)
    ensures
        forall|x: u32| s.push(v).contains(x) <==> (s.contains(x) || x == v),
{
    assert forall|x: u32| s.push(v).contains(x) <==> (s.contains(x) || x == v) by {
        if s.contains(x) {
            let j = choose|j: int| 0 <= j < s.len() && s[j] == x;
            assert(s.push(v)[j] == x);
        }
        if x == v {
            assert(s.push(v)[s.len() as int] == x);
        }
        if s.push(v).contains(x) && x != v {
            let j = choose|j: int| 0 <= j < s.len() + 1 && s.push(v)[j] == x;
            assert(s[j] == x);
        }
    }
}

fn is_separator_char(c: char) -> (r: bool)
    ensures
        r == is_separator(c),
{
    c == ' ' || c == '\t' || c == '\n' || c == '\r' || c == '\x0c' || c == '-'
}

fn cleaned_chars(s: &str) -> (r: Vec<char>)
    ensures
        r@ == cleaned(s@),
{
    let cs = chars_of(s);
    let mut out: Vec<char> = Vec::new();
    let mut i: usize = 0;
    while i < cs.len()
        invariant
            i <= cs@.len(),
            cs@ == s@,
            out@ == cleaned(cs@.subrange(0, i as int)),
        decreases cs@.len() - i,
    {
        let c = cs[i];
        if !is_separator_char(c) {
            out.push(c);
        }
        i = i + 1;
        proof {
            assert(cs@.subrange(0, i as int).drop_last() =~= cs@.subrange(0, i - 1));
        }
    }
    proof {
        assert(cs@.subrange(0, cs@.len() as int) =~= cs@);
    }
    out
}

/// Reads seven decimal digits; `None` if the text is anything else.
fn seven_digits_value(cl: &Vec<char>) -> (r: Option<u32>)
    ensures
        r is Some <==> (cl@.len() == 7 && all_digits(cl@)),
        r is Some ==> r->Some_0 as nat == digits_value(cl@),
{
    if cl.len() != 7 {
        return None;
    }
    let mut val: u32 = 0;
    let mut i: usize = 0;
    while i < 7
        invariant
            i <= 7,
            cl@.len() == 7,
            all_digits(cl@.subrange(0, i as int)),
            val as nat == digits_value(cl@.subrange(0, i as int)),
            (val as nat) < pow10(i as nat),
        decreases 7 - i,
    {
        let c = cl[i];
        if !('0' <= c && c <= '9') {
            assert(!all_digits(cl@));
            return None;
        }
        proof {
            assert(pow10(7) == 10_000_000) by {
                reveal_with_fuel(pow10, 8);
            }
            lemma_pow10_mono(i as nat + 1, 7);
            assert(pow10(i as nat + 1) == 10 * pow10(i as nat));
        }
        let d = (c as u32) - ('0' as u32);
        val = val * 10 + d;
        i = i + 1;
        proof {
            let pre = cl@.subrange(0, i as int);
            assert(pre.drop_last() =~= cl@.subrange(0, i - 1));
            assert forall|j: int| 0 <= j < pre.len() implies is_digit(#[trigger] pre[j]) by {
                if j < pre.len() - 1 {
                    assert(pre[j] == pre.drop_last()[j]);
                }
            }
        }
    }
    proof {
        assert(cl@.subrange(0, 7) =~= cl@);
    }
    Some(val)
}

proof fn lemma_pow10_mono(a: nat, b: nat)
    requires
        a <= b,
    ensures
        pow10(a) <= pow10(b),
    decreases b - a,
{
    if a < b {
        lemma_pow10_mono(a, (b - 1) as nat);
        lemma_pow10_pos((b - 1) as nat);
    }
}

/// Relies on `rand::Rng::gen_range` over the thread-local generator: a value in
/// `low..high`, which must not be empty.
#[verifier::external_body]
pub(crate) fn draw_in_range(low: u32, high: u32) -> (r: u32)
    requires
        low < high,
    ensures
        low <= r < high,
{
    rand::thread_rng().gen_range(low..high)
}

fn make_connection_id(n: u32) -> (c: ConnectionId)
    ensures
        c.numeric_id == n,
        c.id@ == decimal(n as nat),
        c.formatted_id@ == decimal(n as nat),
{
    let mut v: Vec<char> = Vec::new();
    push_decimal(&mut v, n as u64);
    proof {
        assert(v@ =~= decimal(n as nat));
    }
    ConnectionId { id: string_of(&v), numeric_id: n, formatted_id: string_of(&v) }
}

pub struct IdGenerator {
    used_ids: Vec<u32>,
    id_to_session: Vec<(String, String)>,
    range_start: u32,
    range_end: u32,
}

impl IdGenerator {
    pub closed spec fn wf(&self) -> bool {
        &&& ID_MIN <= self.range_start < self.range_end <= ID_END
        &&& self.used_ids@.no_duplicates()
    }

    /// The identities currently reserved.
    pub closed spec fn used(&self) -> Set<u32> {
        self.used_ids@.to_set()
    }

    /// The session bound to an identity's text, if any.
    pub closed spec fn session(&self, key: Seq<char>) -> Option<Seq<char>> {
        lookup(self.id_to_session@, key)
    }

    /// The identities that minting may hand out.
    pub closed spec fn space(&self) -> Set<u32> {
        Set::new(|n: u32| self.range_start <= n < self.range_end)
    }

    /// Every identity of the space has seven digits.
    pub proof fn lemma_space_seven_digits(&self)
        requires
            self.wf(),
        ensures
            forall|n: u32| self.space().contains(n) ==> ID_MIN <= n < ID_END,
    {
    }

    pub fn new() -> (g: Self)
        ensures
            g.wf(),
            g.used() == Set::<u32>::empty(),
            forall|k: Seq<char>| g.session(k) is None,
            g.space() == Set::new(|n: u32| ID_MIN <= n < ID_END),
    {
        let g = IdGenerator { used_ids: Vec::new(), id_to_session: Vec::new(), range_start: ID_MIN, range_end: ID_END };
        proof {
            assert(g.used() =~= Set::<u32>::empty());
        }
        g
    }

    /// An allocator that mints only in `start..end`, which must be a
    /// non-empty part of the seven-digit range; `None` otherwise.
    pub fn with_range(start: u32, end: u32) -> (r: Option<Self>)
        ensures
            r is Some <==> (ID_MIN <= start < end <= ID_END),
            r is Some ==> {
                let g = r->Some_0;
                &&& g.wf()
                &&& g.used() == Set::<u32>::empty()
                &&& forall|k: Seq<char>| g.session(k) is None
                &&& g.space() == Set::new(|n: u32| start <= n < end)
            },
    {
        if ID_MIN <= start && start < end && end <= ID_END {
            let g = IdGenerator { used_ids: Vec::new(), id_to_session: Vec::new(), range_start: start, range_end: end };
            proof {
                assert(g.used() =~= Set::<u32>::empty());
            }
            Some(g)
        } else {
            None
        }
    }

    /// Draws random identities of the space until one is free, at most
    /// `MAX_ATTEMPTS` times, and reserves it.
    pub fn generate_connection_id(&mut self) -> (r: Result<ConnectionId, IdError>)
        requires
            old(self).wf(),
        ensures
            final(self).wf(),
            final(self).space() == old(self).space(),
            forall|k: Seq<char>| final(self).session(k) == old(self).session(k),
            match r {
                Ok(c) => {
                    &&& old(self).space().contains(c.numeric_id)
                    &&& !old(self).used().contains(c.numeric_id)
                    &&& final(self).used() == old(self).used().insert(c.numeric_id)
                    &&& c.id@ == decimal(c.numeric_id as nat)
                    &&& c.formatted_id@ == decimal(c.numeric_id as nat)
                },
                Err(e) => e == IdError::Exhausted && final(self).used() == old(self).used(),
            },
            old(self).space().subset_of(old(self).used()) ==> r is Err,
    {
        let mut attempts: usize = 0;
        while attempts < MAX_ATTEMPTS
            invariant
                *self == *old(self),
                self.wf(),
            decreases MAX_ATTEMPTS - attempts,
        {
            let n = draw_in_range(self.range_start, self.range_end);
            assert(self.space().contains(n));
            match self.reserve_candidate(n) {
                Some(c) => {
                    return Ok(c);
                },
                None => {},
            }
            attempts = attempts + 1;
        }
        Err(IdError::Exhausted)
    }

    /// Mints `n`, an identity of the space, when it is free: it is reserved
    /// and returned. A taken `n` gives `None` and changes nothing.
    pub fn reserve_candidate(&mut self, n: u32) -> (r: Option<ConnectionId>)
        requires
            old(self).wf(),
            old(self).space().contains(n),
        ensures
            final(self).wf(),
            final(self).space() == old(self).space(),
            forall|k: Seq<char>| final(self).session(k) == old(self).session(k),
            r is Some <==> !old(self).used().contains(n),
            match r {
                Some(c) => {
                    &&& c.numeric_id == n
                    &&& c.id@ == decimal(n as nat)
                    &&& c.formatted_id@ == decimal(n as nat)
                    &&& final(self).used() == old(self).used().insert(n)
                },
                None => *final(self) == *old(self),
            },
    {
        if self.is_id_in_use(n) {
            return None;
        }
        self.used_ids.push(n);
        proof {
            lemma_push_contains(old(self).used_ids@, n);
            assert(self.used() =~= old(self).used().insert(n));
            assert forall|i: int, j: int| 0 <= i < self.used_ids@.len() && 0 <= j < self.used_ids@.len() && i != j
                implies self.used_ids@[i] != self.used_ids@[j] by {
                if i < old(self).used_ids@.len() && j < old(self).used_ids@.len() {
                } else if i < old(self).used_ids@.len() {
                    assert(old(self).used_ids@.contains(self.used_ids@[i]));
                } else {
                    assert(old(self).used_ids@.contains(self.used_ids@[j]));
                }
            }
        }
        Some(make_connection_id(n))
    }

    /// Reads an identity's text: seven decimal digits once whitespace and
    /// hyphens are removed.
    pub fn parse_connection_id(&self, formatted_id: &str) -> (r: Result<u32, IdError>)
        ensures
            r is Ok <==> valid_id_text(formatted_id@),
            match r {
                Ok(n) => n as nat == digits_value(cleaned(formatted_id@)),
                Err(e) => e == IdError::InvalidFormat,
            },
    {
        let cl = cleaned_chars(formatted_id);
        match seven_digits_value(&cl) {
            Some(n) => Ok(n),
            None => Err(IdError::InvalidFormat),
        }
    }

    pub fn validate_id_format(&self, id: &str) -> (r: bool)
        ensures
            r == valid_id_text(id@),
    {
        let cl = cleaned_chars(id);
        seven_digits_value(&cl).is_some()
    }

    /// Binds an identity to a session; a later binding replaces an earlier one.
    pub fn register_session(&mut self, connection_id: &ConnectionId, session_id: String)
        ensures
            final(self).wf() == old(self).wf(),
            final(self).used() == old(self).used(),
            final(self).space() == old(self).space(),
            final(self).session(connection_id.formatted_id@) == Some(session_id@),
            forall|k: Seq<char>| k != connection_id.formatted_id@ ==> final(self).session(k) == old(self).session(k),
    {
        let key = connection_id.formatted_id.clone();
        self.id_to_session.push((key, session_id));
        proof {
            assert(self.id_to_session@.drop_last() =~= old(self).id_to_session@);
        }
    }

    pub fn get_session_by_id(&self, formatted_id: &str) -> (r: Option<String>)
        ensures
            match r {
                Some(s) => self.session(formatted_id@) == Some(s@),
                None => self.session(formatted_id@) is None,
            },
    {
        let mut i: usize = self.id_to_session.len();
        proof {
            assert(self.id_to_session@.subrange(0, i as int) =~= self.id_to_session@);
        }
        while i > 0
            invariant
                i <= self.id_to_session@.len(),
                lookup(self.id_to_session@, formatted_id@) == lookup(self.id_to_session@.subrange(0, i as int), formatted_id@),
            decreases i,
        {
            let ghost pre = self.id_to_session@.subrange(0, i as int);
            proof {
                assert(pre.last() == self.id_to_session@[i - 1]);
            }
            if same_text(self.id_to_session[i - 1].0.as_str(), formatted_id) {
                return Some(self.id_to_session[i - 1].1.clone());
            }
            i = i - 1;
            proof {
                assert(pre.drop_last() =~= self.id_to_session@.subrange(0, i as int));
            }
        }
        None
    }

    /// Releases an identity and forgets the session bound to its text.
    pub fn release_id(&mut self, connection_id: &ConnectionId)
        ensures
            old(self).wf() ==> final(self).wf(),
            final(self).space() == old(self).space(),
            final(self).used() == old(self).used().remove(connection_id.numeric_id),
            final(self).session(connection_id.formatted_id@) is None,
            forall|k: Seq<char>| k != connection_id.formatted_id@ ==> final(self).session(k) == old(self).session(k),
    {
        let n = connection_id.numeric_id;
        let mut kept: Vec<u32> = Vec::new();
        let mut i: usize = 0;
        while i < self.used_ids.len()
            invariant
                i <= self.used_ids@.len(),
                *self == *old(self),
                kept@ == self.used_ids@.subrange(0, i as int).filter(|x: u32| x != n),
                old(self).wf() ==> kept@.no_duplicates(),
            decreases self.used_ids@.len() - i,
        {
            let m = self.used_ids[i];
            proof {
                if old(self).wf() && kept@.contains(m) {
                    self.used_ids@.subrange(0, i as int).lemma_filter_contains_rev(|x: u32| x != n, m);
                    let j = choose|j: int| 0 <= j < i && self.used_ids@.subrange(0, i as int)[j] == m;
                    assert(self.used_ids@[j] == self.used_ids@[i as int]);
                }
            }
            proof {
                assert(self.used_ids@.subrange(0, i + 1) =~= self.used_ids@.subrange(0, i as int).push(m));
                self.used_ids@.subrange(0, i as int).lemma_filter_push(m, |x: u32| x != n);
            }
            let ghost before = kept@;
            if m != n {
                kept.push(m);
                assert(kept@ == before.push(m));
                proof {
                    if old(self).wf() {
                        assert forall|a: int, b: int| 0 <= a < kept@.len() && 0 <= b < kept@.len() && a != b
                            implies kept@[a] != kept@[b] by {
                            if a < before.len() && b < before.len() {
                            } else if a < before.len() {
                                assert(before.contains(kept@[a]));
                            } else {
                                assert(before.contains(kept@[b]));
                            }
                        }
                    }
                }
            }
            i = i + 1;
        }
        proof {
            assert(self.used_ids@.subrange(0, i as int) =~= self.used_ids@);
            assert forall|x: u32| kept@.contains(x) <==> (self.used_ids@.contains(x) && x != n) by {
                if kept@.contains(x) {
                    self.used_ids@.lemma_filter_contains_rev(|x: u32| x != n, x);
                    let j = choose|j: int| 0 <= j < kept@.len() && kept@[j] == x;
                    broadcast use vstd::seq_lib::group_filter_ensures;
                }
                if self.used_ids@.contains(x) && x != n {
                    let j = choose|j: int| 0 <= j < self.used_ids@.len() && self.used_ids@[j] == x;
                    broadcast use vstd::seq_lib::group_filter_ensures;
                }
            }
        }
        let key = connection_id.formatted_id.as_str();
        let mut sessions: Vec<(String, String)> = Vec::new();
        let mut j: usize = 0;
        while j < self.id_to_session.len()
            invariant
                j <= self.id_to_session@.len(),
                *self == *old(self),
                key@ == connection_id.formatted_id@,
                lookup(sessions@, key@) is None,
                forall|k: Seq<char>| k != key@ ==> lookup(sessions@, k) == lookup(self.id_to_session@.subrange(0, j as int), k),
            decreases self.id_to_session@.len() - j,
        {
            let ghost pre_sessions = sessions@;
            let ghost entry_key = self.id_to_session@[j as int].0@;
            proof {
                assert(self.id_to_session@.subrange(0, j + 1).drop_last() =~= self.id_to_session@.subrange(0, j as int));
                assert(self.id_to_session@.subrange(0, j + 1).last() == self.id_to_session@[j as int]);
            }
            let ghost sub = self.id_to_session@.subrange(0, j + 1);
            if !same_text(self.id_to_session[j].0.as_str(), key) {
                let entry = (self.id_to_session[j].0.clone(), self.id_to_session[j].1.clone());
                sessions.push(entry);
                proof {
                    assert(sessions@.drop_last() =~= pre_sessions);
                    assert(sessions@.last() == entry);
                    assert forall|k: Seq<char>| k != key@ implies lookup(sessions@, k) == lookup(sub, k) by {
                        if entry.0@ != k {
                            assert(lookup(sessions@, k) == lookup(pre_sessions, k));
                        }
                    }
                }
            } else {
                proof {
                    assert forall|k: Seq<char>| k != key@ implies lookup(sessions@, k) == lookup(sub, k) by {
                        assert(lookup(sub, k) == lookup(sub.drop_last(), k));
                    }
                }
            }
            j = j + 1;
        }
        proof {
            assert(self.id_to_session@.subrange(0, j as int) =~= self.id_to_session@);
        }
        self.used_ids = kept;
        self.id_to_session = sessions;
        proof {
            assert(self.used() =~= old(self).used().remove(n));
        }
    }

    pub fn get_active_ids(&self) -> (r: Vec<u32>)
        requires
            self.wf(),
        ensures
            r@.to_set() == self.used(),
            r@.no_duplicates(),
    {
        let r = self.used_ids.clone();
        proof {
            assert(r@ =~= self.used_ids@);
        }
        r
    }

    pub fn is_id_in_use(&self, numeric_id: u32) -> (r: bool)
        ensures
            r == self.used().contains(numeric_id),
    {
        let mut i: usize = 0;
        while i < self.used_ids.len()
            invariant
                i <= self.used_ids@.len(),
                forall|j: int| 0 <= j < i ==> self.used_ids@[j] != numeric_id,
            decreases self.used_ids@.len() - i,
        {
            if self.used_ids[i] == numeric_id {
                assert(self.used_ids@.contains(numeric_id));
                return true;
            }
            i = i + 1;
        }
        false
    }
}

} // verus!
