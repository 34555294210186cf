//! Deterministic naming: every record maps to a unique, fixed-template,
//! shell-safe artifact name keyed by its kind and coordinates.

use vstd::prelude::*;

use crate::metadata::Metadata;
use crate::metadata::MetadataView;
use crate::storage::ShellSafeName;
use crate::storage::shell_safe;
use crate::storage::shell_safe_char;

verus! {

/// True when `c` is a decimal digit character.
pub open spec fn is_dec_digit_char(c: char) -> bool {
    '0' <= c && c <= '9'
}

/// The decimal digit character for `d`.
pub open spec fn dec_digit(d: nat) -> char
    recommends
        d <= 9,
{
    if d == 0 {
        '0'
    } else if d == 1 {
        '1'
    } else if d == 2 {
        '2'
    } else if d == 3 {
        '3'
    } else if d == 4 {
        '4'
    } else if d == 5 {
        '5'
    } else if d == 6 {
        '6'
    } else if d == 7 {
        '7'
    } else if d == 8 {
        '8'
    } else {
        '9'
    }
}

/// The numeric value of a decimal digit character.
pub open spec fn dec_digit_val(c: char) -> nat
    recommends
        is_dec_digit_char(c),
{
    (c as int - '0' as int) as nat
}

/// The canonical decimal rendering of `n`: most significant digit first,
/// no sign, no leading zero (except the single digit of zero itself).
pub open spec fn dec_of(n: nat) -> Seq<char>
    decreases n,
{
    if n < 10 {
        seq![dec_digit(n)]
    } else {
        dec_of(n / 10) + seq![dec_digit(n % 10)]
    }
}

/// The value of a digit string, most significant digit first.
pub open spec fn dec_val(s: Seq<char>) -> nat
    decreases s.len(),
{
    if s.len() == 0 {
        0
    } else {
        dec_val(s.drop_last()) * 10 + dec_digit_val(s.last())
    }
}

/// Ten to the `k`.
pub open spec fn pow10(k: nat) -> nat
    decreases k,
{
    if k == 0 {
        1
    } else {
        10 * pow10((k - 1) as nat)
    }
}

/// Every character of a decimal rendering is a digit, the rendering is never
/// empty, and it starts with '0' exactly for zero itself.
pub proof fn lemma_dec_of_chars(n: nat)
    ensures
        dec_of(n).len() >= 1,
        forall|i: int| 0 <= i < dec_of(n).len() ==> is_dec_digit_char(#[trigger] dec_of(n)[i]),
        dec_of(n)[0] == '0' <==> n == 0,
    decreases n,
{
    if n >= 10 {
        lemma_dec_of_chars(n / 10);
    }
}

/// Reading back the digit character of `d` gives `d`.
pub proof fn lemma_dec_digit_val(d: nat)
    requires
        d <= 9,
    ensures
        dec_digit_val(dec_digit(d)) == d,
{
}

/// Reading a decimal rendering back gives the rendered number.
pub proof fn lemma_dec_val_of_dec_of(n: nat)
    ensures
        dec_val(dec_of(n)) == n,
    decreases n,
{
    if n < 10 {
        lemma_dec_digit_val(n);
        assert(dec_of(n).drop_last() =~= Seq::<char>::empty());
        assert(dec_of(n).last() == dec_digit(n));
        assert(dec_val(dec_of(n)) == dec_val(Seq::<char>::empty()) * 10 + dec_digit_val(
            dec_digit(n),
        ));
    } else {
        lemma_dec_val_of_dec_of(n / 10);
        lemma_dec_digit_val(n % 10);
        assert(dec_of(n).drop_last() =~= dec_of(n / 10));
        assert(dec_of(n).last() == dec_digit(n % 10));
        assert(dec_val(dec_of(n)) == dec_val(dec_of(n / 10)) * 10 + dec_digit_val(
            dec_digit(n % 10),
        ));
    }
}

/// A number below `pow10(k)` renders in at most `k` digits.
pub proof fn lemma_dec_of_len(n: nat, k: nat)
    requires
        1 <= k,
        n < pow10(k),
    ensures
        dec_of(n).len() <= k,
    decreases k,
{
    if n >= 10 {
        assert(pow10(k) == 10 * pow10((k - 1) as nat));
        lemma_dec_of_len(n / 10, (k - 1) as nat);
    }
}

/// A 64-bit value renders in at most 20 digits.
pub proof fn lemma_dec_of_len_u64(n: u64)
    ensures
        1 <= dec_of(n as nat).len() <= 20,
{
    lemma_dec_of_chars(n as nat);
    assert(pow10(20) == 100000000000000000000) by {
        reveal_with_fuel(pow10, 21);
    }
    lemma_dec_of_len(n as nat, 20);
}

/// The decimal digit as a one-character string.
fn dec_digit_str(d: u64) -> (r: &'static str)
    requires
        d <= 9,
    ensures
        r@ == seq![dec_digit(d as nat)],
{
    proof {
        reveal_strlit("0");
        reveal_strlit("1");
        reveal_strlit("2");
        reveal_strlit("3");
        reveal_strlit("4");
        reveal_strlit("5");
        reveal_strlit("6");
        reveal_strlit("7");
        reveal_strlit("8");
        reveal_strlit("9");
    }
    let r = if d == 0 {
        "0"
    } else if d == 1 {
        "1"
    } else if d == 2 {
        "2"
    } else if d == 3 {
        "3"
    } else if d == 4 {
        "4"
    } else if d == 5 {
        "5"
    } else if d == 6 {
        "6"
    } else if d == 7 {
        "7"
    } else if d == 8 {
        "8"
    } else {
        "9"
    };
    proof {
        assert(r@ =~= seq![dec_digit(d as nat)]);
    }
    r
}

/// Renders `n` in canonical decimal.
pub fn u64_to_string(n: u64) -> (r: String)
    ensures
        r@ == dec_of(n as nat),
{
    if n == 0 {
        let r = String::from_str(dec_digit_str(0));
        proof {
            assert(r@ =~= dec_of(0));
        }
        return r;
    }
    let mut s = String::new();
    let mut m = n;
    while m > 0
        invariant
            n > 0,
            m > 0 ==> dec_of(n as nat) == dec_of(m as nat) + s@,
            m == 0 ==> dec_of(n as nat) == s@,
        decreases m,
    {
        let d = m % 10;
        let prev = m;
        m = m / 10;
        let rest = s;
        s = String::from_str(dec_digit_str(d)).concat(rest.as_str());
        proof {
            if m > 0 {
                assert(dec_of(prev as nat) == dec_of(m as nat) + seq![dec_digit(d as nat)]);
                assert(dec_of(n as nat) =~= dec_of(m as nat) + s@);
            } else {
                assert(dec_of(prev as nat) =~= seq![dec_digit(d as nat)]);
                assert(dec_of(n as nat) =~= s@);
            }
        }
    }
    s
}

/// True when every character of `s` is shell-safe.
pub open spec fn all_shell_safe(s: Seq<char>) -> bool {
    forall|i: int| 0 <= i < s.len() ==> shell_safe_char(#[trigger] s[i])
}

/// Shell-safety of characters is preserved by concatenation.
pub proof fn lemma_all_shell_safe_concat(a: Seq<char>, b: Seq<char>)
    requires
        all_shell_safe(a),
        all_shell_safe(b),
    ensures
        all_shell_safe(a + b),
{
    assert forall|i: int| 0 <= i < (a + b).len() implies shell_safe_char(#[trigger] (a + b)[i]) by {
        if i < a.len() {
            assert((a + b)[i] == a[i]);
        } else {
            assert((a + b)[i] == b[i - a.len()]);
        }
    }
}

/// Decimal renderings are made of shell-safe characters.
pub proof fn lemma_dec_of_shell_safe(n: nat)
    ensures
        all_shell_safe(dec_of(n)),
{
    lemma_dec_of_chars(n);
}

/// The name template of each record kind: a fixed prefix, the record's
/// coordinates in decimal, and the `.meta` suffix. Only the kind and the
/// coordinates enter the name; the manifest handle and the members of a range
/// do not.
pub open spec fn spec_name(m: MetadataView) -> Seq<char> {
    match m {
        MetadataView::EpochEndingBackup(e) => "epoch_ending_"@ + dec_of(e.first_epoch as nat)
            + "-"@ + dec_of(e.last_epoch as nat) + ".meta"@,
        MetadataView::EpochEndingBackupRange(e) => "epoch_ending_compacted_"@ + dec_of(
            e.first_epoch as nat,
        ) + "-"@ + dec_of(e.last_epoch as nat) + ".meta"@,
        MetadataView::StateSnapshotBackup(s) => "state_snapshot_ver_"@ + dec_of(s.version as nat)
            + ".meta"@,
        MetadataView::StateSnapshotBackupRange(s) => "state_snapshot_compacted_ver_"@ + dec_of(
            s.first_version as nat,
        ) + "-"@ + dec_of(s.last_version as nat) + ".meta"@,
        MetadataView::TransactionBackup(t) => "transaction_"@ + dec_of(t.first_version as nat)
            + "-"@ + dec_of(t.last_version as nat) + ".meta"@,
        MetadataView::TransactionBackupRange(t) => "transaction_compacted_"@ + dec_of(
            t.first_version as nat,
        ) + "-"@ + dec_of(t.last_version as nat) + ".meta"@,
        MetadataView::Identity(_) => "identity.meta"@,
    }
}

/// Builds `prefix` + `first` + `-` + `last` + `.meta` for a two-coordinate
/// template.
fn range_name(prefix: &'static str, first: u64, last: u64) -> (r: String)
    ensures
        r@ == prefix@ + dec_of(first as nat) + "-"@ + dec_of(last as nat) + ".meta"@,
{
    let r = String::from_str(prefix).concat(u64_to_string(first).as_str()).concat("-").concat(
        u64_to_string(last).as_str(),
    ).concat(".meta");
    proof {
        assert(r@ =~= prefix@ + dec_of(first as nat) + "-"@ + dec_of(last as nat) + ".meta"@);
    }
    r
}

/// Every generated name is shell-safe: its characters come from the fixed
/// templates and decimal digits, it starts with a letter, and it is far below
/// the length cap.
proof fn lemma_spec_name_shell_safe(m: MetadataView)
    ensures
        shell_safe(spec_name(m)),
{
    reveal_strlit("epoch_ending_");
    reveal_strlit("epoch_ending_compacted_");
    reveal_strlit("state_snapshot_ver_");
    reveal_strlit("state_snapshot_compacted_ver_");
    reveal_strlit("transaction_");
    reveal_strlit("transaction_compacted_");
    reveal_strlit("identity.meta");
    reveal_strlit("-");
    reveal_strlit(".meta");
    assert(all_shell_safe("epoch_ending_"@));
    assert(all_shell_safe("epoch_ending_compacted_"@));
    assert(all_shell_safe("state_snapshot_ver_"@));
    assert(all_shell_safe("state_snapshot_compacted_ver_"@));
    assert(all_shell_safe("transaction_"@));
    assert(all_shell_safe("transaction_compacted_"@));
    assert(all_shell_safe("identity.meta"@));
    assert(all_shell_safe("-"@));
    assert(all_shell_safe(".meta"@));
    match m {
        MetadataView::EpochEndingBackup(e) => {
            lemma_two_coord_name_shell_safe("epoch_ending_"@, e.first_epoch, e.last_epoch);
        },
        MetadataView::EpochEndingBackupRange(e) => {
            lemma_two_coord_name_shell_safe(
                "epoch_ending_compacted_"@,
                e.first_epoch,
                e.last_epoch,
            );
        },
        MetadataView::StateSnapshotBackup(s) => {
            let name = "state_snapshot_ver_"@ + dec_of(s.version as nat) + ".meta"@;
            lemma_dec_of_shell_safe(s.version as nat);
            lemma_dec_of_len_u64(s.version);
            lemma_all_shell_safe_concat("state_snapshot_ver_"@, dec_of(s.version as nat));
            lemma_all_shell_safe_concat(
                "state_snapshot_ver_"@ + dec_of(s.version as nat),
                ".meta"@,
            );
            assert(name[0] == 's');
        },
        MetadataView::StateSnapshotBackupRange(s) => {
            lemma_two_coord_name_shell_safe(
                "state_snapshot_compacted_ver_"@,
                s.first_version,
                s.last_version,
            );
        },
        MetadataView::TransactionBackup(t) => {
            lemma_two_coord_name_shell_safe("transaction_"@, t.first_version, t.last_version);
        },
        MetadataView::TransactionBackupRange(t) => {
            lemma_two_coord_name_shell_safe(
                "transaction_compacted_"@,
                t.first_version,
                t.last_version,
            );
        },
        MetadataView::Identity(_) => {
            assert("identity.meta"@[0] == 'i');
        },
    }
}

/// Shell-safety of one two-coordinate template instance.
proof fn lemma_two_coord_name_shell_safe(prefix: Seq<char>, first: u64, last: u64)
    requires
        all_shell_safe(prefix),
        1 <= prefix.len() <= 80,
        shell_safe_char(prefix[0]),
        prefix[0] != '.' && prefix[0] != '_' && prefix[0] != '-',
    ensures
        shell_safe(prefix + dec_of(first as nat) + "-"@ + dec_of(last as nat) + ".meta"@),
{
    reveal_strlit("-");
    reveal_strlit(".meta");
    lemma_dec_of_shell_safe(first as nat);
    lemma_dec_of_shell_safe(last as nat);
    lemma_dec_of_len_u64(first);
    lemma_dec_of_len_u64(last);
    assert(all_shell_safe("-"@));
    assert(all_shell_safe(".meta"@));
    lemma_all_shell_safe_concat(prefix, dec_of(first as nat));
    lemma_all_shell_safe_concat(prefix + dec_of(first as nat), "-"@);
    lemma_all_shell_safe_concat(prefix + dec_of(first as nat) + "-"@, dec_of(last as nat));
    lemma_all_shell_safe_concat(
        prefix + dec_of(first as nat) + "-"@ + dec_of(last as nat),
        ".meta"@,
    );
    let name = prefix + dec_of(first as nat) + "-"@ + dec_of(last as nat) + ".meta"@;
    assert(name[0] == prefix[0]);
}

impl Metadata {
    /// The record's deterministic, shell-safe artifact name: fixed templates
    /// with numeric substitutions only, so name generation never fails.
    pub fn name(&self) -> (r: ShellSafeName)
        ensures
            r.wf(),
            r@ == spec_name(self@),
    {
        let s: String = match self {
            Metadata::EpochEndingBackup(e) => range_name(
                "epoch_ending_",
                e.first_epoch,
                e.last_epoch,
            ),
            Metadata::EpochEndingBackupRange(e) => range_name(
                "epoch_ending_compacted_",
                e.first_epoch,
                e.last_epoch,
            ),
            Metadata::StateSnapshotBackup(sm) => {
                let r = String::from_str("state_snapshot_ver_").concat(
                    u64_to_string(sm.version).as_str(),
                ).concat(".meta");
                proof {
                    assert(r@ =~= "state_snapshot_ver_"@ + dec_of(sm.version as nat) + ".meta"@);
                }
                r
            },
            Metadata::StateSnapshotBackupRange(sm) => range_name(
                "state_snapshot_compacted_ver_",
                sm.first_version,
                sm.last_version,
            ),
            Metadata::TransactionBackup(t) => range_name(
                "transaction_",
                t.first_version,
                t.last_version,
            ),
            Metadata::TransactionBackupRange(t) => range_name(
                "transaction_compacted_",
                t.first_version,
                t.last_version,
            ),
            Metadata::Identity(_) => String::from_str("identity.meta"),
        };
        proof {
            lemma_spec_name_shell_safe(self@);
        }
        ShellSafeName::new_checked(s)
    }
}

/// Law: naming is keyed by kind and coordinates alone. Two leaf records with
/// identical coordinates name identically even when their manifest handles
/// differ, for each leaf kind. (Determinism itself is immediate: the name is
/// a function of the record's model.)
pub proof fn lemma_name_ignores_manifest(a: MetadataView, b: MetadataView)
    ensures
        (a matches MetadataView::EpochEndingBackup(x) && b matches MetadataView::EpochEndingBackup(
            y,
        ) && x.first_epoch == y.first_epoch && x.last_epoch == y.last_epoch && x.first_version
            == y.first_version && x.last_version == y.last_version) ==> spec_name(a) == spec_name(
            b,
        ),
        (a matches MetadataView::StateSnapshotBackup(x)
            && b matches MetadataView::StateSnapshotBackup(y) && x.epoch == y.epoch && x.version
            == y.version) ==> spec_name(a) == spec_name(b),
        (a matches MetadataView::TransactionBackup(x) && b matches MetadataView::TransactionBackup(
            y,
        ) && x.first_version == y.first_version && x.last_version == y.last_version) ==> spec_name(
            a,
        ) == spec_name(b),
{
}

} // verus!
