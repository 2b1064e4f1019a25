//! Single-mod backups: the unique, timestamped backup locations used as
//! a safety net around destructive operations.

use vstd::prelude::*;

use crate::ascii::{SLASH, USCORE, subvec, append_bytes, backups_seg, spec_backups_seg};
use crate::patch::find_last_byte;
use crate::schema::{digits_ok, dec_val};

verus! {

/// The decimal digit string of an unsigned value.
pub open spec fn spec_u64_dec(n: int) -> Seq<u8>
    decreases n,
{
    if n <= 0 {
        seq![48u8]
    } else if n < 10 {
        seq![(48 + n) as u8]
    } else {
        spec_u64_dec(n / 10) + seq![(48 + n % 10) as u8]
    }
}

/// Renders an unsigned value in decimal.
pub fn u64_to_dec(n: u64) -> (r: Vec<u8>)
    ensures
        r@ == spec_u64_dec(n as int),
    decreases n,
{
    if n < 10 {
        let mut v: Vec<u8> = Vec::new();
        v.push(48 + (n as u8));
        proof {
            assert(v@ =~= spec_u64_dec(n as int));
        }
        v
    } else {
        let mut v = u64_to_dec(n / 10);
        v.push(48 + ((n % 10) as u8));
        proof {
            assert(v@ =~= spec_u64_dec((n / 10) as int) + seq![(48 + n as int % 10) as u8]);
        }
        v
    }
}

/// Relies on `std::time::SystemTime::now`: the seconds since the epoch,
/// zero when the clock reads before it. Two calls may return different
/// values.
#[verifier::external_body]
fn unix_time_secs() -> u64 {
    match std::time::SystemTime::now().duration_since(std::time::UNIX_EPOCH) {
        Ok(d) => d.as_secs(),
        Err(_) => 0,
    }
}

/// A unique identifier from the current timestamp: the seconds since the
/// epoch, in decimal.
pub fn generate_timestamp_string() -> (r: Vec<u8>)
    ensures
        exists|t: int| 0 <= t && r@ == spec_u64_dec(t),
        digits_ok(r@),
{
    let t = unix_time_secs();
    let r = u64_to_dec(t);
    proof {
        lemma_u64_dec_digits(t as int);
    }
    r
}

/// A rendered decimal is a digit run.
pub proof fn lemma_u64_dec_digits(n: int)
    ensures
        digits_ok(spec_u64_dec(n)),
    decreases n,
{
    if n <= 0 {
    } else if n < 10 {
    } else {
        lemma_u64_dec_digits(n / 10);
        let s = spec_u64_dec(n);
        let a = spec_u64_dec(n / 10);
        assert(forall|i: int| 0 <= i < s.len() ==> 48 <= #[trigger] s[i] <= 57) by {
            assert(forall|i: int| 0 <= i < a.len() ==> s[i] == #[trigger] a[i]);
            assert(s[s.len() - 1] == (48 + n % 10) as u8);
        }
    }
}

/// The backup container for one mod: `<temp>/backups/<name>_<stamp>`.
pub open spec fn spec_backup_parent(temp_dir: Seq<u8>, mod_name: Seq<u8>, stamp: Seq<u8>) -> Seq<
    u8,
> {
    temp_dir + spec_backups_seg() + mod_name + seq![USCORE] + stamp
}

/// The backup copy's own path inside the container:
/// `<parent>/<name>`.
pub open spec fn spec_backup_path(temp_dir: Seq<u8>, mod_name: Seq<u8>, stamp: Seq<u8>) -> Seq<
    u8,
> {
    spec_backup_parent(temp_dir, mod_name, stamp) + seq![SLASH] + mod_name
}

/// Plans a backup of one mod into the temp directory: a container folder
/// named by the mod and a fresh timestamp, holding a copy of the mod
/// under its own name. Returns the container and the copy path.
pub fn backup_mod_to_temp(temp_dir: &Vec<u8>, mod_name: &Vec<u8>) -> (r: (Vec<u8>, Vec<u8>))
    ensures
        exists|t: int|
            0 <= t && r.0@ == spec_backup_parent(temp_dir@, mod_name@, spec_u64_dec(t)) && r.1@
                == spec_backup_path(temp_dir@, mod_name@, spec_u64_dec(t)),
{
    let stamp = generate_timestamp_string();
    let ghost t = choose|t: int| 0 <= t && stamp@ == spec_u64_dec(t);
    let mut parent = subvec(temp_dir, 0, temp_dir.len());
    let seg = backups_seg();
    append_bytes(&mut parent, &seg);
    append_bytes(&mut parent, mod_name);
    parent.push(USCORE);
    append_bytes(&mut parent, &stamp);
    proof {
        assert(temp_dir@.subrange(0, temp_dir@.len() as int) =~= temp_dir@);
        assert(parent@ =~= spec_backup_parent(temp_dir@, mod_name@, spec_u64_dec(t)));
    }
    let mut path = subvec(&parent, 0, parent.len());
    path.push(SLASH);
    append_bytes(&mut path, mod_name);
    proof {
        assert(parent@.subrange(0, parent@.len() as int) =~= parent@);
        assert(path@ =~= spec_backup_path(temp_dir@, mod_name@, spec_u64_dec(t)));
    }
    (parent, path)
}

/// The directory containing a path: everything before its last
/// separator; `None` for a bare name. Cleaning up a backup removes this
/// parent of the backup copy, the whole timestamped container.
pub open spec fn spec_parent_dir(path: Seq<u8>) -> Option<Seq<u8>> {
    let k = find_last_byte(path, SLASH);
    if k == -1 {
        None
    } else {
        Some(path.take(k))
    }
}

/// The containing directory of a path.
pub fn parent_dir(path: &Vec<u8>) -> (r: Option<Vec<u8>>)
    ensures
        match r {
            Some(p) => spec_parent_dir(path@) == Some(p@),
            None => spec_parent_dir(path@) is None,
        },
{
    let mut i: usize = path.len();
    proof {
        assert(path@.take(i as int) =~= path@);
    }
    while i > 0
        invariant
            i <= path@.len(),
            find_last_byte(path@, SLASH) == find_last_byte(path@.take(i as int), SLASH),
        decreases i,
    {
        proof {
            assert(path@.take(i as int).last() == path@[i - 1]);
            assert(path@.take(i as int).drop_last() =~= path@.take(i - 1));
        }
        if path[i - 1] == SLASH {
            proof {
                assert(find_last_byte(path@, SLASH) == i - 1);
            }
            return Some(subvec(path, 0, i - 1));
        }
        i = i - 1;
    }
    proof {
        assert(path@.take(0) =~= Seq::<u8>::empty());
        assert(find_last_byte(path@, SLASH) == -1);
    }
    None
}

} // verus!
