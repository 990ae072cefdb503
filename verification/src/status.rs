//! The status classifier.
//!
//! A process's status export is modelled as a sequence of byte lines. The
//! classifier reads the lines in order, keeping one boolean flag: a line
//! that begins with `VmSize:` and a tab marks the process as a user
//! process; a line that begins with `Cpus_allowed_list:` and a tab carries
//! the affinity value. Where the user-process mark has been seen and the
//! value is a bare unsigned integer (neither a range with `-` nor an
//! enumeration with `,`), the process occupies that core; in every other
//! case it contributes nothing.

use vstd::prelude::*;

verus! {

/// An ASCII decimal digit.
pub open spec fn is_ascii_digit(b: u8) -> bool {
    48 <= b <= 57
}

/// The number a sequence of ASCII digits denotes in base ten.
pub open spec fn digits_to_nat(s: Seq<u8>) -> nat
    decreases s.len(),
{
    if s.len() == 0 {
        0
    } else {
        digits_to_nat(s.drop_last()) * 10 + ((s.last() - 48) as nat)
    }
}

/// The digit part of a decimal token: one leading `+` is tolerated.
pub open spec fn digits_of(s: Seq<u8>) -> Seq<u8> {
    if s.len() > 0 && s[0] == 43 {
        s.drop_first()
    } else {
        s
    }
}

/// A token that parses as an unsigned integer: after the optional leading
/// `+`, one or more ASCII digits whose value fits the machine word.
pub open spec fn is_core_id_token(s: Seq<u8>) -> bool {
    &&& digits_of(s).len() > 0
    &&& (forall|i: int| 0 <= i < digits_of(s).len() ==> is_ascii_digit(#[trigger] digits_of(s)[i]))
    &&& digits_to_nat(digits_of(s)) <= usize::MAX
}

/// What parsing an affinity value yields: the core identifier, or nothing
/// when the token is not a plain unsigned integer.
pub open spec fn parse_core_id_spec(s: Seq<u8>) -> Option<usize> {
    if is_core_id_token(s) {
        Some(digits_to_nat(digits_of(s)) as usize)
    } else {
        None
    }
}

/// Reading more digits can only grow the denoted number.
proof fn lemma_digits_take_le(s: Seq<u8>, i: int)
    requires
        0 <= i <= s.len(),
    ensures
        digits_to_nat(s.take(i)) <= digits_to_nat(s),
    decreases s.len() - i,
{
    if i == s.len() {
        assert(s.take(i) =~= s);
    } else {
        assert(s.take(i + 1).drop_last() =~= s.take(i));
        assert(digits_to_nat(s.take(i + 1)) == digits_to_nat(s.take(i)) * 10 + ((s.take(
            i + 1,
        ).last() - 48) as nat));
        lemma_digits_take_le(s, i + 1);
    }
}

/// Parses an affinity value as a core identifier: one optional `+`, then
/// decimal digits. Any other shape, an empty token, or a value that does not
/// fit the machine word yields nothing.
pub fn parse_core_id(s: &Vec<u8>) -> (r: Option<usize>)
    ensures
        r == parse_core_id_spec(s@),
{
    let start: usize = if s.len() > 0 && s[0] == 43 {
        1
    } else {
        0
    };
    let ghost d = digits_of(s@);
    proof {
        assert(d =~= s@.skip(start as int));
    }
    if s.len() == start {
        return None;
    }
    let mut acc: usize = 0;
    let mut i: usize = start;
    while i < s.len()
        invariant
            start <= i <= s.len(),
            start <= s.len(),
            d == digits_of(s@),
            d =~= s@.skip(start as int),
            forall|j: int| 0 <= j < i - start ==> is_ascii_digit(#[trigger] d[j]),
            acc == digits_to_nat(d.take(i - start)),
        decreases s.len() - i,
    {
        let b = s[i];
        proof {
            assert(d[i - start] == s@[i as int]);
        }
        if !(48 <= b && b <= 57) {
            assert(!is_core_id_token(s@));
            return None;
        }
        let ghost k = i - start;
        proof {
            assert(d.take(k + 1).drop_last() =~= d.take(k));
            assert(d.take(k + 1).last() == b);
        }
        let step = match acc.checked_mul(10) {
            Some(x) => x.checked_add((b - 48) as usize),
            None => None,
        };
        match step {
            Some(x) => {
                acc = x;
            },
            None => {
                proof {
                    assert(digits_to_nat(d.take(k + 1)) > usize::MAX);
                    lemma_digits_take_le(d, k + 1);
                    assert(!is_core_id_token(s@));
                }
                return None;
            },
        }
        i += 1;
    }
    proof {
        assert(d.take(s@.len() - start) =~= d);
        assert(is_core_id_token(s@));
    }
    Some(acc)
}

/// The bytes of `VmSize:` followed by a tab, the mark of a user process.
pub open spec fn vmsize_prefix() -> Seq<u8> {
    seq![86u8, 109u8, 83u8, 105u8, 122u8, 101u8, 58u8, 9u8]
}

/// The bytes of `Cpus_allowed_list:` followed by a tab, the affinity key.
pub open spec fn cpus_prefix() -> Seq<u8> {
    seq![
        67u8,
        112u8,
        117u8,
        115u8,
        95u8,
        97u8,
        108u8,
        108u8,
        111u8,
        119u8,
        101u8,
        100u8,
        95u8,
        108u8,
        105u8,
        115u8,
        116u8,
        58u8,
        9u8,
    ]
}

/// A line that opens the `VmSize` field.
pub open spec fn is_vmsize_line(line: Seq<u8>) -> bool {
    vmsize_prefix().is_prefix_of(line)
}

/// A line that opens the `Cpus_allowed_list` field.
pub open spec fn is_cpus_line(line: Seq<u8>) -> bool {
    cpus_prefix().is_prefix_of(line)
}

/// The value part of a `Cpus_allowed_list` line: what follows the key, the
/// colon and the tab.
pub open spec fn cpus_value(line: Seq<u8>) -> Seq<u8> {
    line.skip(cpus_prefix().len() as int)
}

/// A value that names one core and no more: it holds neither a range (`-`)
/// nor an enumeration (`,`).
pub open spec fn is_single_core_value(v: Seq<u8>) -> bool {
    !v.contains(45u8) && !v.contains(44u8)
}

/// The scan of the lines from position `i` on, where `has_vmsize` says
/// whether a `VmSize` line stood among the lines before `i`. The result is
/// decided by the first line that carries the affinity key while the
/// user-process mark is present and whose value parses as a bare unsigned
/// integer.
pub open spec fn classify_from(lines: Seq<Seq<u8>>, i: int, has_vmsize: bool) -> Option<usize>
    decreases lines.len() - i,
{
    if i < 0 || lines.len() <= i {
        None
    } else {
        let gate = has_vmsize || is_vmsize_line(lines[i]);
        if gate && is_cpus_line(lines[i]) && is_single_core_value(cpus_value(lines[i]))
            && parse_core_id_spec(cpus_value(lines[i])) is Some {
            parse_core_id_spec(cpus_value(lines[i]))
        } else {
            classify_from(lines, i + 1, gate)
        }
    }
}

/// The core one process occupies, read from the lines of its status export:
/// the identifier its affinity value names, provided a `VmSize` line has set
/// the user-process gate; nothing otherwise.
pub open spec fn classify_spec(lines: Seq<Seq<u8>>) -> Option<usize> {
    classify_from(lines, 0, false)
}

proof fn lemma_no_vmsize_from(lines: Seq<Seq<u8>>, i: int)
    requires
        0 <= i,
        forall|j: int| i <= j < lines.len() ==> !is_vmsize_line(#[trigger] lines[j]),
    ensures
        classify_from(lines, i, false) is None,
    decreases lines.len() - i,
{
    if i < lines.len() {
        lemma_no_vmsize_from(lines, i + 1);
    }
}

/// A status without a `VmSize` line never contributes a core, whatever its
/// affinity lines say: a task with no user-space memory image is ignored.
pub proof fn lemma_no_vmsize_no_contribution(lines: Seq<Seq<u8>>)
    requires
        forall|j: int| 0 <= j < lines.len() ==> !is_vmsize_line(#[trigger] lines[j]),
    ensures
        classify_spec(lines) is None,
{
    lemma_no_vmsize_from(lines, 0);
}

proof fn lemma_multi_core_from(lines: Seq<Seq<u8>>, i: int, gate: bool)
    requires
        0 <= i,
        forall|j: int|
            0 <= j < lines.len() && is_cpus_line(#[trigger] lines[j]) ==> !is_single_core_value(
                cpus_value(lines[j]),
            ),
    ensures
        classify_from(lines, i, gate) is None,
    decreases lines.len() - i,
{
    if i < lines.len() {
        lemma_multi_core_from(lines, i + 1, gate || is_vmsize_line(lines[i]));
    }
}

/// A status whose affinity values all name a range or an enumeration
/// (they hold a `-` or a `,`) never contributes a core: a floating process
/// monopolizes nothing.
pub proof fn lemma_multi_core_no_contribution(lines: Seq<Seq<u8>>)
    requires
        forall|j: int|
            0 <= j < lines.len() && is_cpus_line(#[trigger] lines[j]) ==> !is_single_core_value(
                cpus_value(lines[j]),
            ),
    ensures
        classify_spec(lines) is None,
{
    lemma_multi_core_from(lines, 0, false);
}

proof fn lemma_pinned_from(lines: Seq<Seq<u8>>, i: int, gate: bool, vi: int, ci: int, k: usize)
    requires
        0 <= i <= ci < lines.len(),
        !gate ==> i <= vi < ci && is_vmsize_line(lines[vi]),
        is_cpus_line(lines[ci]),
        is_single_core_value(cpus_value(lines[ci])),
        parse_core_id_spec(cpus_value(lines[ci])) == Some(k),
        forall|j: int| i <= j < lines.len() && j != ci ==> !is_cpus_line(#[trigger] lines[j]),
    ensures
        classify_from(lines, i, gate) == Some(k),
    decreases ci - i,
{
    let gate2 = gate || is_vmsize_line(lines[i]);
    if i == ci {
        assert(gate);
    } else {
        assert(!is_cpus_line(lines[i]));
        if !gate2 {
            assert(vi != i);
        }
        lemma_pinned_from(lines, i + 1, gate2, vi, ci, k);
    }
}

/// A user process pinned to one core contributes exactly that core: when a
/// `VmSize` line precedes the one affinity line, and that line's value is a
/// bare unsigned integer `k`, the classifier yields `k`.
pub proof fn lemma_pinned_contributes(lines: Seq<Seq<u8>>, vi: int, ci: int, k: usize)
    requires
        0 <= vi < ci < lines.len(),
        is_vmsize_line(lines[vi]),
        is_cpus_line(lines[ci]),
        is_single_core_value(cpus_value(lines[ci])),
        parse_core_id_spec(cpus_value(lines[ci])) == Some(k),
        forall|j: int| 0 <= j < lines.len() && j != ci ==> !is_cpus_line(#[trigger] lines[j]),
    ensures
        classify_spec(lines) == Some(k),
{
    lemma_pinned_from(lines, 0, false, vi, ci, k);
}

/// Whether `prefix` opens `line`, byte for byte.
fn has_prefix(line: &Vec<u8>, prefix: &Vec<u8>) -> (r: bool)
    ensures
        r == prefix@.is_prefix_of(line@),
{
    if line.len() < prefix.len() {
        return false;
    }
    let mut i: usize = 0;
    while i < prefix.len()
        invariant
            0 <= i <= prefix.len(),
            prefix.len() <= line.len(),
            forall|j: int| 0 <= j < i ==> line@[j] == prefix@[j],
        decreases prefix.len() - i,
    {
        if line[i] != prefix[i] {
            assert(line@.subrange(0, prefix@.len() as int)[i as int] != prefix@[i as int]);
            return false;
        }
        i += 1;
    }
    assert(prefix@ =~= line@.subrange(0, prefix@.len() as int));
    true
}

/// The `VmSize:` key and its tab, as bytes.
fn vmsize_prefix_vec() -> (v: Vec<u8>)
    ensures
        v@ == vmsize_prefix(),
{
    let mut v: Vec<u8> = Vec::new();
    v.push(86);
    v.push(109);
    v.push(83);
    v.push(105);
    v.push(122);
    v.push(101);
    v.push(58);
    v.push(9);
    proof {
        assert(v@ =~= vmsize_prefix());
    }
    v
}

/// The `Cpus_allowed_list:` key and its tab, as bytes.
fn cpus_prefix_vec() -> (v: Vec<u8>)
    ensures
        v@ == cpus_prefix(),
{
    let mut v: Vec<u8> = Vec::new();
    v.push(67);
    v.push(112);
    v.push(117);
    v.push(115);
    v.push(95);
    v.push(97);
    v.push(108);
    v.push(108);
    v.push(111);
    v.push(119);
    v.push(101);
    v.push(100);
    v.push(95);
    v.push(108);
    v.push(105);
    v.push(115);
    v.push(116);
    v.push(58);
    v.push(9);
    proof {
        assert(v@ =~= cpus_prefix());
    }
    v
}

/// The bytes of `line` after its first `start` ones.
fn tail_from(line: &Vec<u8>, start: usize) -> (v: Vec<u8>)
    requires
        start <= line.len(),
    ensures
        v@ == line@.skip(start as int),
{
    let mut v: Vec<u8> = Vec::new();
    let mut i: usize = start;
    while i < line.len()
        invariant
            start <= i <= line.len(),
            v@ =~= line@.subrange(start as int, i as int),
        decreases line.len() - i,
    {
        v.push(line[i]);
        i += 1;
    }
    proof {
        assert(v@ =~= line@.skip(start as int));
    }
    v
}

/// Whether `v` holds neither a `-` nor a `,`.
fn is_single_core(v: &Vec<u8>) -> (r: bool)
    ensures
        r == is_single_core_value(v@),
{
    let mut i: usize = 0;
    while i < v.len()
        invariant
            0 <= i <= v.len(),
            forall|j: int| 0 <= j < i ==> v@[j] != 45u8 && v@[j] != 44u8,
        decreases v.len() - i,
    {
        if v[i] == 45 || v[i] == 44 {
            assert(v@.contains(45u8) || v@.contains(44u8));
            return false;
        }
        i += 1;
    }
    assert(!v@.contains(45u8) && !v@.contains(44u8)) by {
        if v@.contains(45u8) {
            let j = choose|j: int| 0 <= j < v@.len() && v@[j] == 45u8;
            assert(false);
        }
        if v@.contains(44u8) {
            let j = choose|j: int| 0 <= j < v@.len() && v@[j] == 44u8;
            assert(false);
        }
    }
    true
}

/// Classifies one process's status export, given as its lines in order:
/// the core identifier the process is pinned to, or nothing when it is no
/// single-core-pinned user process.
pub fn classify_status(lines: &Vec<Vec<u8>>) -> (r: Option<usize>)
    ensures
        r == classify_spec(lines.deep_view()),
{
    let vmsize = vmsize_prefix_vec();
    let cpus = cpus_prefix_vec();
    let ghost dv = lines.deep_view();
    let mut has_vmsize = false;
    let mut i: usize = 0;
    while i < lines.len()
        invariant
            0 <= i <= lines.len(),
            dv == lines.deep_view(),
            dv.len() == lines@.len(),
            forall|j: int| 0 <= j < dv.len() ==> #[trigger] dv[j] == lines@[j]@,
            vmsize@ == vmsize_prefix(),
            cpus@ == cpus_prefix(),
            classify_spec(dv) == classify_from(dv, i as int, has_vmsize),
        decreases lines.len() - i,
    {
        let line = &lines[i];
        let ghost gate_before = has_vmsize;
        if has_prefix(line, &vmsize) {
            has_vmsize = true;
        }
        proof {
            assert(dv[i as int] == line@);
            assert(has_vmsize == (gate_before || is_vmsize_line(dv[i as int])));
        }
        if has_vmsize && has_prefix(line, &cpus) {
            let value = tail_from(line, cpus.len());
            proof {
                assert(value@ == cpus_value(dv[i as int]));
            }
            if is_single_core(&value) {
                if let Some(id) = parse_core_id(&value) {
                    proof {
                        assert(classify_from(dv, i as int, gate_before) == Some(id));
                    }
                    return Some(id);
                }
            }
        }
        proof {
            assert(classify_from(dv, i as int, gate_before) == classify_from(
                dv,
                i as int + 1,
                has_vmsize,
            ));
        }
        i += 1;
    }
    None
}

} // verus!
