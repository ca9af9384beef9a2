//! The model of a listing of network sets and its parser.

pub mod metrics;
pub mod pattern;

use crate::error::{InvalidPattern, MalformedKind, ParseError};
use crate::text::{after, all_digits, before, decimal_u64, decimal_value, first_index};
use crate::text::{first_occurrence, line_views, lines_of, starts_with};
use crate::text::{chars_equal, find, find_char, has_char, matches_at, parse_u64, skip_after};
use crate::text::{split_lines, string_from_chars, take_before, to_chars};
use crate::text::lemma_first_index_props;
use pattern::{compile, is_match, pattern_of, regex_is_match, regex_pattern};
use regex::Regex;
use vstd::arithmetic::power2::{lemma2_to64, lemma_pow2_strictly_increases, pow2};
use vstd::bits::lemma_u64_shl_is_mul;
use vstd::prelude::*;

verus! {

/// One field of a dotted address: one to three decimal digits that denote at
/// most 255, without a leading zero before another digit.
pub open spec fn is_octet(field: Seq<char>) -> bool {
    &&& 1 <= field.len() <= 3
    &&& all_digits(field)
    &&& (field.len() == 1 || field[0] != '0')
    &&& decimal_value(field) <= 255
}

/// A well-formed address of four octets with dots between them.
pub open spec fn is_ipv4(s: Seq<char>) -> bool {
    let second = after(s, '.');
    let third = after(second, '.');
    &&& first_index(s, '.') is Some
    &&& first_index(second, '.') is Some
    &&& first_index(third, '.') is Some
    &&& is_octet(before(s, '.'))
    &&& is_octet(before(second, '.'))
    &&& is_octet(before(third, '.'))
    &&& is_octet(after(third, '.'))
}

/// The number that the text after the slash denotes: decimal digits, with an
/// optional plus sign before them.
pub open spec fn prefix_number(s: Seq<char>) -> Option<u64> {
    if s.len() > 0 && s[0] == '+' {
        decimal_u64(s.skip(1))
    } else {
        decimal_u64(s)
    }
}

/// The prefix length of an entry in CIDR notation: the entry has exactly one
/// slash, a well-formed address before it and a number from 0 to 32 after it.
/// Every other entry has none.
pub open spec fn prefix_length_of(cidr: Seq<char>) -> Option<u8> {
    if first_index(cidr, '/') is Some && first_index(after(cidr, '/'), '/') is None && is_ipv4(
        before(cidr, '/'),
    ) {
        match prefix_number(after(cidr, '/')) {
            Some(n) => if n <= 32 {
                Some(n as u8)
            } else {
                None
            },
            None => None,
        }
    } else {
        None
    }
}

/// The usable addresses of a range with the given prefix length: all of its
/// two to the power of (32 - prefix length) addresses, less the network and
/// the broadcast address where the prefix is shorter than 31 bits.
pub open spec fn usable_ip_count(prefix_length: u8) -> int {
    if prefix_length < 31 {
        pow2((32 - prefix_length) as nat) - 2
    } else {
        pow2((32 - prefix_length) as nat) as int
    }
}

/// The usable addresses that a member of a set stands for. Only the text
/// before the first space counts. A range in CIDR notation stands for its
/// usable addresses, everything else for one address.
pub open spec fn entry_ip_count(entry: Seq<char>) -> int {
    match prefix_length_of(before(entry, ' ')) {
        Some(prefix_length) => usable_ip_count(prefix_length),
        None => 1,
    }
}

/// The usable addresses that the members of a set stand for, taken
/// together: the sum of what each member stands for, and zero for a set
/// without members.
pub open spec fn total_ip_count(entries: Seq<Seq<char>>) -> int
    decreases entries.len(),
{
    if entries.len() == 0 {
        0
    } else {
        total_ip_count(entries.drop_last()) + entry_ip_count(entries.last())
    }
}

/// A count of addresses as 32 bits hold it: the count, or the largest value
/// of 32 bits where the count is larger.
pub open spec fn saturated(count: int) -> int {
    if count > u32::MAX {
        u32::MAX as int
    } else {
        count
    }
}

/// The address count that is kept for a set: the usable addresses of its
/// members taken together, as 32 bits hold them.
pub open spec fn list_ip_count(entries: Seq<Seq<char>>) -> int {
    saturated(total_ip_count(entries))
}

/// Tells whether a field of a dotted address is an octet.
fn check_octet(field: &[char]) -> (b: bool)
    ensures
        b == is_octet(field@),
{
    if field.len() < 1 || field.len() > 3 {
        return false;
    }
    if field.len() > 1 && field[0] == '0' {
        return false;
    }
    match parse_u64(field) {
        Some(v) => v <= 255,
        None => false,
    }
}

/// Tells whether a text is a well-formed address of four octets.
fn check_ipv4(s: &[char]) -> (b: bool)
    ensures
        b == is_ipv4(s@),
{
    let second = skip_after(s, '.');
    let third = skip_after(second, '.');
    has_char(s, '.') && has_char(second, '.') && has_char(third, '.') && check_octet(
        take_before(s, '.'),
    ) && check_octet(take_before(second, '.')) && check_octet(take_before(third, '.'))
        && check_octet(skip_after(third, '.'))
}

/// Reads the prefix length of an entry in CIDR notation.
fn prefix_length(cidr: &[char]) -> (r: Option<u8>)
    ensures
        r == prefix_length_of(cidr@),
{
    let tail = skip_after(cidr, '/');
    if !has_char(cidr, '/') || has_char(tail, '/') || !check_ipv4(take_before(cidr, '/')) {
        return None;
    }
    let number = if tail.len() > 0 && tail[0] == '+' {
        let digits = &tail[1..tail.len()];
        assert(digits@ == tail@.skip(1));
        parse_u64(digits)
    } else {
        parse_u64(tail)
    };
    match number {
        Some(n) => if n <= 32 {
            Some(n as u8)
        } else {
            None
        },
        None => None,
    }
}

/// Reads the prefix length of an entry in CIDR notation, such as
/// `192.168.1.0/24`. An entry that is no well-formed range has none.
pub fn get_prefix_length(cidr: &str) -> (r: Option<u8>)
    ensures
        r == prefix_length_of(cidr@),
{
    let chars = to_chars(cidr);
    prefix_length(chars.as_slice())
}

/// The usable addresses of a range with the given prefix length.
pub fn calculate_usable_ip_count(prefix_length: u8) -> (n: u32)
    requires
        prefix_length <= 32,
    ensures
        n == usable_ip_count(prefix_length),
{
    let shift: u64 = (32 - prefix_length) as u64;
    proof {
        lemma2_to64();
        if shift < 32 {
            lemma_pow2_strictly_increases(shift as nat, 32);
        }
        lemma_u64_shl_is_mul(1, shift);
    }
    let total: u64 = 1u64 << shift;
    if prefix_length < 31 {
        assert(pow2(2) <= pow2(shift as nat)) by {
            if shift > 2 {
                lemma_pow2_strictly_increases(2, shift as nat);
            }
        }
        (total - 2) as u32
    } else {
        assert(shift <= 1);
        total as u32
    }
}

/// The usable addresses that a member of a set stands for.
fn count_ips(entry: &[char]) -> (n: u32)
    ensures
        n == entry_ip_count(entry@),
{
    match prefix_length(take_before(entry, ' ')) {
        Some(p) => calculate_usable_ip_count(p),
        None => 1,
    }
}

/// The usable addresses that a member of a set stands for: those of its
/// range where the member begins with a range in CIDR notation, and one
/// otherwise. No member is refused.
pub fn count_entry_ips(entry: &str) -> (n: u32)
    ensures
        n == entry_ip_count(entry@),
{
    let chars = to_chars(entry);
    count_ips(chars.as_slice())
}

/// One named set with its members in the order of the listing.
#[derive(Clone, Debug, PartialEq, Eq)]
pub struct IpsetData {
    name: String,
    entries: Vec<String>,
    num_ips: u32,
}

/// What an `IpsetData` holds.
pub struct SetView {
    pub name: Seq<char>,
    pub entries: Seq<Seq<char>>,
    pub num_ips: u32,
}

impl SetView {
    /// The set of that name without members.
    pub open spec fn named(name: Seq<char>) -> SetView {
        SetView { name, entries: Seq::empty(), num_ips: 0 }
    }

    /// The set with one more member at its end. What the member stands for
    /// is added to the address count, which stops at the largest value of 32
    /// bits.
    pub open spec fn with_entry(self, entry: Seq<char>) -> SetView {
        SetView {
            entries: self.entries.push(entry),
            num_ips: saturated(self.num_ips + entry_ip_count(entry)) as u32,
            ..self
        }
    }

    /// The address count is that of the members taken together.
    pub open spec fn wf(self) -> bool {
        self.num_ips == list_ip_count(self.entries)
    }
}

impl View for IpsetData {
    type V = SetView;

    closed spec fn view(&self) -> SetView {
        SetView {
            name: self.name@,
            entries: Seq::new(self.entries@.len(), |i: int| self.entries@[i]@),
            num_ips: self.num_ips,
        }
    }
}

/// What the sets of a vector hold, in order.
pub open spec fn set_views(sets: Seq<IpsetData>) -> Seq<SetView> {
    Seq::new(sets.len(), |i: int| sets[i]@)
}

impl IpsetData {
    /// The name of the set.
    pub fn name(&self) -> (s: &str)
        ensures
            s@ == self@.name,
    {
        self.name.as_str()
    }

    /// The members of the set, in the order of the listing.
    pub fn entries(&self) -> (e: &Vec<String>)
        ensures
            e@.len() == self@.entries.len(),
            forall|i: int| 0 <= i < e@.len() ==> e@[i]@ == self@.entries[i],
    {
        &self.entries
    }

    /// The address count of the set.
    pub fn num_ips(&self) -> (n: u32)
        ensures
            n == self@.num_ips,
    {
        self.num_ips
    }
}

/// The part of a listing that a scan is in.
#[derive(Clone, Copy, Debug, PartialEq, Eq, Structural)]
pub enum Section {
    OutsideMembers,
    InsideMembers,
}

/// Where a scan of a listing stands: the sets that were started so far, and
/// the part of the listing that the scan is in.
pub struct SetScanView {
    pub sets: Seq<SetView>,
    pub section: Section,
}

impl SetScanView {
    /// The state before the first line.
    pub open spec fn start() -> SetScanView {
        SetScanView { sets: Seq::empty(), section: Section::OutsideMembers }
    }
}

/// What one line does to a scan. A line that begins with `Name:` starts a
/// set, named by what follows the first colon and space of the line; without
/// a colon and space the line is refused. The line `Members:` opens a members
/// section and the empty line ends it. Every other line is a member of the set
/// that was started last, if the scan is in a members section and a set was
/// started, and changes nothing otherwise.
pub open spec fn set_step(state: SetScanView, line: Seq<char>) -> Result<SetScanView, MalformedKind> {
    if starts_with(line, "Name:"@) {
        match first_occurrence(line, ": "@) {
            None => Err(MalformedKind::MalformedSetName),
            Some(i) => Ok(
                SetScanView {
                    sets: state.sets.push(SetView::named(line.skip(i + ": "@.len()))),
                    ..state
                },
            ),
        }
    } else if line == "Members:"@ {
        Ok(SetScanView { section: Section::InsideMembers, ..state })
    } else if line.len() == 0 {
        Ok(SetScanView { section: Section::OutsideMembers, ..state })
    } else if state.section == Section::InsideMembers && state.sets.len() > 0 {
        Ok(
            SetScanView {
                sets: state.sets.update(state.sets.len() - 1, state.sets.last().with_entry(line)),
                ..state
            },
        )
    } else {
        Ok(state)
    }
}

/// The scan of a sequence of lines from the first to the last. It stops at
/// the first line that is refused and reports that line's number, counted
/// from one.
pub open spec fn set_scan(lines: Seq<Seq<char>>) -> Result<SetScanView, ParseError>
    decreases lines.len(),
{
    if lines.len() == 0 {
        Ok(SetScanView::start())
    } else {
        match set_scan(lines.drop_last()) {
            Err(e) => Err(e),
            Ok(state) => match set_step(state, lines.last()) {
                Err(kind) => Err(ParseError::MalformedInput { line: lines.len() as usize, kind }),
                Ok(next) => Ok(next),
            },
        }
    }
}

/// The sets that a listing describes, in the order of the listing. A listing
/// may end inside a members section.
pub open spec fn sets_of(text: Seq<char>) -> Result<Seq<SetView>, ParseError> {
    match set_scan(lines_of(text)) {
        Err(e) => Err(e),
        Ok(state) => Ok(state.sets),
    }
}

/// A scan that has refused a line refuses every text that goes on from there,
/// for the same reason.
pub proof fn lemma_set_scan_error_stays(lines: Seq<Seq<char>>, k: int)
    requires
        0 <= k <= lines.len(),
        set_scan(lines.take(k)) is Err,
    ensures
        set_scan(lines) == set_scan(lines.take(k)),
    decreases lines.len() - k,
{
    if k == lines.len() {
        assert(lines.take(k) =~= lines);
    } else {
        assert(lines.take(k + 1).drop_last() =~= lines.take(k));
        lemma_set_scan_error_stays(lines, k + 1);
    }
}

/// A member stands for at least one address and for fewer than two to the
/// power of 32.
pub proof fn lemma_entry_ip_count_fits(entry: Seq<char>)
    ensures
        1 <= entry_ip_count(entry) <= u32::MAX,
{
    if let Some(p) = prefix_length_of(before(entry, ' ')) {
        let width = (32 - p) as nat;
        lemma2_to64();
        if width < 32 {
            lemma_pow2_strictly_increases(width, 32);
        }
        if width > 1 {
            lemma_pow2_strictly_increases(1, width);
        }
    }
}

/// The members of a set never stand for fewer addresses than there are
/// members.
pub proof fn lemma_total_ip_count_bounds(entries: Seq<Seq<char>>)
    ensures
        entries.len() <= total_ip_count(entries),
    decreases entries.len(),
{
    if entries.len() > 0 {
        lemma_total_ip_count_bounds(entries.drop_last());
        lemma_entry_ip_count_fits(entries.last());
    }
}

/// Adding a member to a set whose address count is that of its members gives
/// a set whose address count is that of its members.
pub proof fn lemma_with_entry_wf(set: SetView, entry: Seq<char>)
    requires
        set.wf(),
    ensures
        set.with_entry(entry).wf(),
        total_ip_count(set.with_entry(entry).entries) == total_ip_count(set.entries)
            + entry_ip_count(entry),
{
    assert(set.entries.push(entry).drop_last() =~= set.entries);
    lemma_entry_ip_count_fits(entry);
    lemma_total_ip_count_bounds(set.entries);
}

/// The address count of every set of a scan is the sum of what its members
/// stand for, as 32 bits hold it, and zero where the set has no members.
pub proof fn lemma_set_scan_wf(lines: Seq<Seq<char>>)
    requires
        set_scan(lines) is Ok,
    ensures
        forall|i: int|
            0 <= i < set_scan(lines)->Ok_0.sets.len() ==> (#[trigger] set_scan(
                lines,
            )->Ok_0.sets[i]).wf(),
    decreases lines.len(),
{
    if lines.len() > 0 {
        lemma_set_scan_wf(lines.drop_last());
        let before = set_scan(lines.drop_last())->Ok_0;
        let after = set_scan(lines)->Ok_0;
        let line = lines.last();
        assert forall|i: int| 0 <= i < after.sets.len() implies (#[trigger] after.sets[i]).wf() by {
            if i < before.sets.len() && after.sets[i] == before.sets[i] {
                assert(before.sets[i].wf());
            } else if i < before.sets.len() {
                assert(before.sets.last().wf());
                assert(after.sets[i] == before.sets.last().with_entry(line));
                lemma_with_entry_wf(before.sets.last(), line);
            } else {
                assert(after.sets[i].entries.len() == 0);
            }
        }
    }
}

/// The address count of every set of a parsed listing is the sum of what its
/// members stand for, as 32 bits hold it, and zero where the set has no
/// members.
pub proof fn lemma_sets_wf(text: Seq<char>, i: int)
    requires
        sets_of(text) is Ok,
        0 <= i < sets_of(text)->Ok_0.len(),
    ensures
        sets_of(text)->Ok_0[i].wf(),
{
    lemma_set_scan_wf(lines_of(text));
}

/// The sets that stay when those with a set flag are dropped. A set without
/// a flag stays.
pub open spec fn unflagged(sets: Seq<SetView>, flags: Seq<bool>) -> Seq<SetView>
    decreases sets.len(),
{
    if sets.len() == 0 {
        sets
    } else {
        let rest = unflagged(sets.drop_last(), flags);
        if sets.len() - 1 < flags.len() && flags[sets.len() - 1] {
            rest
        } else {
            rest.push(sets.last())
        }
    }
}

/// Dropping the sets whose flag says that they do not meet a condition
/// leaves the sets that meet it, in their order.
pub proof fn lemma_unflagged_is_filter(
    sets: Seq<SetView>,
    flags: Seq<bool>,
    keep: spec_fn(SetView) -> bool,
)
    requires
        sets.len() <= flags.len(),
        forall|i: int| 0 <= i < sets.len() ==> flags[i] == !keep(#[trigger] sets[i]),
    ensures
        unflagged(sets, flags) == sets.filter(keep),
    decreases sets.len(),
{
    reveal(Seq::filter);
    if sets.len() > 0 {
        let rest = sets.drop_last();
        assert forall|i: int| 0 <= i < rest.len() implies flags[i] == !keep(#[trigger] rest[i]) by {
            assert(rest[i] == sets[i]);
        }
        lemma_unflagged_is_filter(rest, flags, keep);
        assert(sets.last() == sets[sets.len() - 1]);
    }
}

/// The scan of a listing as it runs.
struct SetScanner {
    sets: Vec<IpsetData>,
    section: Section,
}

impl View for SetScanner {
    type V = SetScanView;

    closed spec fn view(&self) -> SetScanView {
        SetScanView { sets: set_views(self.sets@), section: self.section }
    }
}

impl SetScanner {
    /// Takes one line.
    fn feed(&mut self, line: &[char]) -> (r: Result<(), MalformedKind>)
        ensures
            match set_step(old(self)@, line@) {
                Ok(next) => r is Ok && final(self)@ == next,
                Err(kind) => r == Err::<(), MalformedKind>(kind),
            },
    {
        let marker = to_chars("Name:");
        let members = to_chars("Members:");
        if matches_at(line, marker.as_slice(), 0) {
            let separator = to_chars(": ");
            let n = line.len();
            match find(line, separator.as_slice()) {
                None => Err(MalformedKind::MalformedSetName),
                Some(i) => {
                    let name = &line[i + separator.len()..n];
                    assert(name@ == line@.skip(i + ": "@.len()));
                    let set = IpsetData {
                        name: string_from_chars(name),
                        entries: Vec::new(),
                        num_ips: 0,
                    };
                    assert(set@.entries =~= Seq::<Seq<char>>::empty());
                    self.sets.push(set);
                    assert(self@.sets =~= old(self)@.sets.push(set@));
                    Ok(())
                },
            }
        } else if chars_equal(line, members.as_slice()) {
            self.section = Section::InsideMembers;
            Ok(())
        } else if line.len() == 0 {
            self.section = Section::OutsideMembers;
            Ok(())
        } else if self.section == Section::InsideMembers && self.sets.len() > 0 {
            let last = self.sets.len() - 1;
            let ghost before = self.sets@[last as int]@;
            let count = self.sets[last].num_ips.saturating_add(count_ips(line));
            self.sets[last].entries.push(string_from_chars(line));
            self.sets[last].num_ips = count;
            proof {
                assert(self.sets@[last as int]@.entries =~= before.entries.push(line@));
                assert(self.sets@[last as int]@ == before.with_entry(line@));
                assert(self@.sets =~= old(self)@.sets.update(
                    last as int,
                    before.with_entry(line@),
                ));
            }
            Ok(())
        } else {
            Ok(())
        }
    }
}

/// The sets that were listed, and the pattern of the names to leave out.
#[derive(Debug)]
pub struct IpsetState {
    lists: Vec<IpsetData>,
    ignore_list_regex: Regex,
}

impl View for IpsetState {
    type V = Seq<SetView>;

    closed spec fn view(&self) -> Seq<SetView> {
        set_views(self.lists@)
    }
}

impl IpsetState {
    /// The compiled pattern of the names to leave out.
    pub closed spec fn ignore_regex(&self) -> Regex {
        self.ignore_list_regex
    }

    /// A state without sets that leaves out the names that match a pattern.
    /// Whether the pattern can be compiled is for the regex crate to say.
    pub fn new(ignore_regex: &str) -> (r: Result<IpsetState, InvalidPattern>)
        ensures
            r matches Ok(state) ==> state@ == Seq::<SetView>::empty() && regex_pattern(
                state.ignore_regex(),
            ) == ignore_regex@,
    {
        IpsetState::from_compiled(compile(ignore_regex))
    }

    /// The pattern of the names to leave out.
    pub fn ignore_pattern(&self) -> (s: &str)
        ensures
            s@ == regex_pattern(self.ignore_regex()),
    {
        pattern_of(&self.ignore_list_regex)
    }

    /// A state without sets for the outcome of compiling a pattern: the
    /// state with the compiled pattern, or the refusal of the pattern.
    pub fn from_compiled(compiled: Result<Regex, regex::Error>) -> (r: Result<
        IpsetState,
        InvalidPattern,
    >)
        ensures
            match compiled {
                Ok(re) => r matches Ok(state) && state@ == Seq::<SetView>::empty()
                    && state.ignore_regex() == re,
                Err(_) => r is Err,
            },
    {
        match compiled {
            Ok(re) => {
                let state = IpsetState { lists: Vec::new(), ignore_list_regex: re };
                assert(state@ =~= Seq::<SetView>::empty());
                Ok(state)
            },
            Err(_) => Err(InvalidPattern),
        }
    }

    /// The sets, in the order of the listing.
    pub fn lists(&self) -> (l: &Vec<IpsetData>)
        ensures
            set_views(l@) == self@,
    {
        &self.lists
    }

    /// Parses a listing and adds its sets to the state. The address count of
    /// every set that is added is the sum of what its members stand for, as
    /// 32 bits hold it. A malformed listing adds nothing: the state stays as
    /// it was.
    pub fn parse(&mut self, text: &str) -> (r: Result<(), ParseError>)
        ensures
            final(self).ignore_regex() == old(self).ignore_regex(),
            match sets_of(text@) {
                Ok(sets) => {
                    &&& r is Ok
                    &&& final(self)@ == old(self)@ + sets
                    &&& forall|i: int| 0 <= i < sets.len() ==> (#[trigger] sets[i]).wf()
                },
                Err(e) => r == Err::<(), ParseError>(e) && final(self)@ == old(self)@,
            },
    {
        let chars = to_chars(text);
        let lines = split_lines(chars.as_slice());
        let ghost all = line_views(lines@);
        let mut scanner = SetScanner { sets: Vec::new(), section: Section::OutsideMembers };
        assert(scanner@.sets =~= Seq::<SetView>::empty());
        assert(all.take(0) =~= Seq::<Seq<char>>::empty());
        let mut i: usize = 0;
        while i < lines.len()
            invariant
                i <= lines.len(),
                all == line_views(lines@),
                all == lines_of(text@),
                set_scan(all.take(i as int)) == Ok::<SetScanView, ParseError>(scanner@),
            decreases lines.len() - i,
        {
            proof {
                assert(all.take(i + 1).drop_last() =~= all.take(i as int));
                assert(all.take(i + 1).last() == lines@[i as int]@);
            }
            match scanner.feed(lines[i].as_slice()) {
                Ok(()) => {},
                Err(kind) => {
                    proof {
                        lemma_set_scan_error_stays(all, i + 1);
                    }
                    return Err(ParseError::MalformedInput { line: i + 1, kind });
                },
            }
            i = i + 1;
        }
        proof {
            assert(all.take(i as int) =~= all);
            lemma_set_scan_wf(all);
        }
        let mut started = scanner.sets;
        self.lists.append(&mut started);
        assert(self@ =~= old(self)@ + scanner@.sets);
        Ok(())
    }

    /// Drops the sets whose flag is set: the set at an index goes where the
    /// flag at that index is there and true.
    pub fn drop_flagged(&mut self, flags: &Vec<bool>)
        ensures
            final(self).ignore_regex() == old(self).ignore_regex(),
            final(self)@ == unflagged(old(self)@, flags@),
    {
        let mut all: Vec<IpsetData> = Vec::new();
        core::mem::swap(&mut self.lists, &mut all);
        let mut kept: Vec<IpsetData> = Vec::new();
        let mut i: usize = 0;
        let n = all.len();
        assert(set_views(all@).take(0) =~= Seq::<SetView>::empty());
        for item in it: all
            invariant
                i == it.index(),
                it.seq().len() == n,
                set_views(it.seq()) == old(self)@,
                set_views(kept@) == unflagged(old(self)@.take(i as int), flags@),
        {
            let ghost done = old(self)@.take(i as int);
            let ghost next = old(self)@.take(i + 1);
            proof {
                assert(next.drop_last() =~= done);
                assert(next.last() == item@);
            }
            if !(i < flags.len() && flags[i]) {
                kept.push(item);
                assert(set_views(kept@) =~= unflagged(done, flags@).push(item@));
            }
            i = i + 1;
        }
        assert(old(self)@.take(i as int) =~= old(self)@);
        self.lists = kept;
    }

    /// Drops the sets whose name matches the pattern of the state.
    pub fn filter_by_regex(&mut self)
        ensures
            final(self).ignore_regex() == old(self).ignore_regex(),
            final(self)@ == old(self)@.filter(
                |set: SetView| !regex_is_match(old(self).ignore_regex(), set.name),
            ),
    {
        let mut matched: Vec<bool> = Vec::new();
        let mut i: usize = 0;
        while i < self.lists.len()
            invariant
                i <= self.lists.len(),
                matched@.len() == i,
                forall|j: int|
                    0 <= j < i ==> matched@[j] == regex_is_match(
                        self.ignore_list_regex,
                        (#[trigger] self.lists@[j])@.name,
                    ),
            decreases self.lists.len() - i,
        {
            let hit = is_match(&self.ignore_list_regex, self.lists[i].name.as_str());
            matched.push(hit);
            i = i + 1;
        }
        proof {
            let keep = |set: SetView| !regex_is_match(old(self).ignore_regex(), set.name);
            assert forall|j: int| 0 <= j < self@.len() implies matched@[j] == !keep(
                #[trigger] self@[j],
            ) by {
                assert(self@[j] == self.lists@[j]@);
            }
            lemma_unflagged_is_filter(self@, matched@, keep);
        }
        self.drop_flagged(&matched);
    }
}

} // verus!
