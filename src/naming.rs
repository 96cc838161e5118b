use vstd::prelude::*;

verus! {

pub const DOT: u8 = 46;

pub const DASH: u8 = 45;

pub const SLASH: u8 = 47;

pub const ZERO: u8 = 48;

/// The first day that has a date label: 0001-01-01, counted from the common era.
pub const FIRST_DAY: i32 = 1;

/// The last day that has a date label: 9999-12-31.
pub const LAST_DAY: i32 = 3652059;

/// The `YYYYMMDD` label of a day, counted as chrono counts days from the
/// common era (0001-01-01 is day 1).
pub uninterp spec fn ymd_label(day: int) -> Seq<u8>;

/// Days whose label has four digits of year.
pub open spec fn labelled(day: int) -> bool {
    FIRST_DAY <= day <= LAST_DAY
}

/// Relies on chrono's `NaiveDate::from_num_days_from_ce_opt`, which turns the
/// day number into a date (years 1 to 9999 lie well inside chrono's range),
/// and on its `%Y%m%d` formatting: four digits of year, two of month, two of day.
#[verifier::external_body]
pub(crate) fn format_day(day: i32) -> (r: Vec<u8>)
    requires
        labelled(day as int),
    ensures
        r@ == ymd_label(day as int),
        r@.len() == 8,
{
    match chrono::NaiveDate::from_num_days_from_ce_opt(day) {
        Some(date) => date.format("%Y%m%d").to_string().into_bytes(),
        None => Vec::new(),
    }
}

/// The `YYYYMMDD` label of a day, when the day lies in years 1 to 9999.
pub fn day_label(day: i32) -> (r: Option<Vec<u8>>)
    ensures
        labelled(day as int) ==> r is Some && r->0@ == ymd_label(day as int) && r->0@.len()
            == 8,
        !labelled(day as int) ==> r is None,
{
    if FIRST_DAY <= day && day <= LAST_DAY {
        Some(format_day(day))
    } else {
        None
    }
}

/// The decimal digits of `n`, without leading zeros.
pub open spec fn decimal(n: nat) -> Seq<u8>
    decreases n,
{
    if n < 10 {
        seq![(ZERO + n) as u8]
    } else {
        decimal(n / 10).push((ZERO + n % 10) as u8)
    }
}

/// `s` begins with `prefix`.
pub open spec fn starts_with(s: Seq<u8>, prefix: Seq<u8>) -> bool {
    prefix.len() <= s.len() && s.take(prefix.len() as int) == prefix
}

/// The bare archive name of `path` for a day label: `<path>.<label>`.
pub open spec fn archive_stem(path: Seq<u8>, label: Seq<u8>) -> Seq<u8> {
    path + seq![DOT] + label
}

/// The `n`-th archive name of `path` for a day label: the bare name for 0,
/// `<path>.<label>-<n>` after that.
pub open spec fn candidate(path: Seq<u8>, label: Seq<u8>, n: nat) -> Seq<u8> {
    if n == 0 {
        archive_stem(path, label)
    } else {
        archive_stem(path, label) + seq![DASH] + decimal(n)
    }
}

/// The name of the compressed form of a file.
pub open spec fn gz(name: Seq<u8>) -> Seq<u8> {
    name + seq![DOT, 103u8, 122u8]
}

/// The files whose presence makes an archive name taken: the name itself,
/// and under compression also its compressed form.
pub open spec fn probe_paths(name: Seq<u8>, compress: bool) -> Seq<Seq<u8>> {
    if compress {
        seq![name, gz(name)]
    } else {
        seq![name]
    }
}

/// How many bytes of `p` name its directory: everything through the last
/// `/`, or nothing when there is none.
pub open spec fn dir_len(p: Seq<u8>) -> nat
    decreases p.len(),
{
    if p.len() == 0 {
        0
    } else if p.last() == SLASH {
        p.len()
    } else {
        dir_len(p.drop_last())
    }
}

/// The directory part of `p`, with its trailing `/`.
pub open spec fn dir_part(p: Seq<u8>) -> Seq<u8> {
    p.take(dir_len(p) as int)
}

/// The file name part of `p`.
pub open spec fn base_part(p: Seq<u8>) -> Seq<u8> {
    p.skip(dir_len(p) as int)
}

/// The directory to list for the files next to `p`: its directory part, or
/// `.` when `p` has none.
pub open spec fn listing_dir(p: Seq<u8>) -> Seq<u8> {
    if dir_len(p) == 0 {
        seq![DOT]
    } else {
        dir_part(p)
    }
}

/// What a retention sweep removes, among the file names `names` listed next
/// to `path`: the paths of those that begin with `<base>.<label>`, in order.
pub open spec fn sweep_targets(names: Seq<Seq<u8>>, path: Seq<u8>, label: Seq<u8>) -> Seq<
    Seq<u8>,
>
    decreases names.len(),
{
    if names.len() == 0 {
        Seq::empty()
    } else {
        let rest = sweep_targets(names.drop_last(), path, label);
        if starts_with(names.last(), archive_stem(base_part(path), label)) {
            rest.push(dir_part(path) + names.last())
        } else {
            rest
        }
    }
}

/// Appends `src` to `out`.
pub fn append_bytes(out: &mut Vec<u8>, src: &[u8])
    ensures
        final(out)@ == old(out)@ + src@,
{
    let mut i: usize = 0;
    while i < src.len()
        invariant
            i <= src@.len(),
            out@ == old(out)@ + src@.take(i as int),
        decreases src@.len() - i,
    {
        out.push(src[i]);
        i = i + 1;
        assert(src@.take(i as int) =~= src@.take(i - 1).push(src@[i - 1]));
    }
    assert(src@.take(src@.len() as int) =~= src@);
}

/// Appends the decimal digits of `n` to `out`.
pub fn append_decimal(out: &mut Vec<u8>, n: u64)
    ensures
        final(out)@ == old(out)@ + decimal(n as nat),
    decreases n,
{
    if n >= 10 {
        append_decimal(out, n / 10);
    }
    let digit: u8 = (n % 10) as u8;
    out.push(ZERO + digit);
    proof {
        if n >= 10 {
            assert(old(out)@ + decimal((n / 10) as nat) + seq![(ZERO + digit) as u8] =~= old(out)@
                + decimal(n as nat));
        } else {
            assert(old(out)@ + seq![(ZERO + digit) as u8] =~= old(out)@ + decimal(n as nat));
        }
    }
}

/// The `n`-th archive name of `path` for a day label (see `candidate`).
pub fn candidate_name(path: &[u8], label: &[u8], n: u64) -> (r: Vec<u8>)
    ensures
        r@ == candidate(path@, label@, n as nat),
{
    let mut r: Vec<u8> = Vec::new();
    append_bytes(&mut r, path);
    r.push(DOT);
    append_bytes(&mut r, label);
    if n > 0 {
        r.push(DASH);
        append_decimal(&mut r, n);
    }
    proof {
        if n > 0 {
            assert(r@ =~= candidate(path@, label@, n as nat));
        } else {
            assert(r@ =~= candidate(path@, label@, n as nat));
        }
    }
    r
}

/// The name of the compressed form of `name`.
pub fn gz_name(name: &[u8]) -> (r: Vec<u8>)
    ensures
        r@ == gz(name@),
{
    let mut r: Vec<u8> = Vec::new();
    append_bytes(&mut r, name);
    r.push(DOT);
    r.push(103u8);
    r.push(122u8);
    assert(r@ =~= gz(name@));
    r
}

/// The files to probe before taking `name` as an archive name.
pub fn probe_list(name: &[u8], compress: bool) -> (r: Vec<Vec<u8>>)
    ensures
        crate::lines::contents(r@) == probe_paths(name@, compress),
{
    let mut r: Vec<Vec<u8>> = Vec::new();
    let mut own: Vec<u8> = Vec::new();
    append_bytes(&mut own, name);
    r.push(own);
    if compress {
        r.push(gz_name(name));
    }
    assert(crate::lines::contents(r@) =~= probe_paths(name@, compress));
    r
}

/// The number of bytes of `p` that name its directory (see `dir_len`).
pub fn dir_length(p: &[u8]) -> (r: usize)
    ensures
        r == dir_len(p@),
        r <= p@.len(),
{
    let mut k: usize = p.len();
    assert(p@.take(p@.len() as int) =~= p@);
    while k > 0 && p[k - 1] != SLASH
        invariant
            k <= p@.len(),
            dir_len(p@) == dir_len(p@.take(k as int)),
        decreases k,
    {
        assert(p@.take(k as int).drop_last() =~= p@.take(k - 1));
        k = k - 1;
    }
    if k > 0 {
        assert(p@.take(k as int).last() == SLASH);
    }
    k
}

/// The directory to list for the files next to `path` (see `listing_dir`).
pub fn listing_dir_of(path: &[u8]) -> (r: Vec<u8>)
    ensures
        r@ == listing_dir(path@),
{
    let k = dir_length(path);
    let mut r: Vec<u8> = Vec::new();
    if k == 0 {
        r.push(DOT);
        assert(r@ =~= listing_dir(path@));
    } else {
        append_bytes(&mut r, vstd::slice::slice_subrange(path, 0, k));
    }
    r
}

/// Whether `s` begins with `prefix`.
pub fn has_prefix(s: &[u8], prefix: &[u8]) -> (r: bool)
    ensures
        r == starts_with(s@, prefix@),
{
    if prefix.len() > s.len() {
        return false;
    }
    let mut i: usize = 0;
    while i < prefix.len()
        invariant
            i <= prefix@.len() <= s@.len(),
            forall|j: int| 0 <= j < i ==> s@[j] == prefix@[j],
        decreases prefix@.len() - i,
    {
        if s[i] != prefix[i] {
            assert(s@.take(prefix@.len() as int)[i as int] != prefix@[i as int]);
            return false;
        }
        i = i + 1;
    }
    assert(s@.take(prefix@.len() as int) =~= prefix@);
    true
}

/// The paths that a retention sweep removes, given the file names listed
/// next to `path` and the label of the day that expires (see `sweep_targets`).
pub fn sweep_list(names: &Vec<Vec<u8>>, path: &[u8], label: &[u8]) -> (r: Vec<Vec<u8>>)
    ensures
        crate::lines::contents(r@) == sweep_targets(crate::lines::contents(names@), path@, label@),
{
    let k = dir_length(path);
    let dir = vstd::slice::slice_subrange(path, 0, k);
    let base = vstd::slice::slice_subrange(path, k, path.len());
    assert(dir@ == dir_part(path@));
    assert(base@ =~= base_part(path@));
    let mut prefix: Vec<u8> = Vec::new();
    append_bytes(&mut prefix, base);
    prefix.push(DOT);
    append_bytes(&mut prefix, label);
    assert(prefix@ =~= archive_stem(base_part(path@), label@));
    let ghost all = crate::lines::contents(names@);
    let mut r: Vec<Vec<u8>> = Vec::new();
    let mut i: usize = 0;
    while i < names.len()
        invariant
            i <= names@.len(),
            all == crate::lines::contents(names@),
            dir@ == dir_part(path@),
            prefix@ == archive_stem(base_part(path@), label@),
            crate::lines::contents(r@) == sweep_targets(all.take(i as int), path@, label@),
        decreases names@.len() - i,
    {
        let name = &names[i];
        assert(all.take(i + 1).drop_last() =~= all.take(i as int));
        assert(all.take(i + 1).last() == name@);
        if has_prefix(name.as_slice(), prefix.as_slice()) {
            let mut full: Vec<u8> = Vec::new();
            append_bytes(&mut full, dir);
            append_bytes(&mut full, name.as_slice());
            let ghost before = crate::lines::contents(r@);
            r.push(full);
            assert(crate::lines::contents(r@) =~= before.push(dir_part(path@) + name@));
        }
        i = i + 1;
    }
    assert(all.take(names@.len() as int) =~= all);
    r
}

proof fn lemma_decimal_shape(n: nat)
    ensures
        decimal(n).len() >= 1,
        n >= 10 ==> decimal(n).len() >= 2,
    decreases n,
{
    if n >= 10 {
        lemma_decimal_shape(n / 10);
    }
}

/// Different numbers have different decimal digits.
pub proof fn lemma_decimal_injective(a: nat, b: nat)
    requires
        decimal(a) == decimal(b),
    ensures
        a == b,
    decreases a,
{
    lemma_decimal_shape(a);
    lemma_decimal_shape(b);
    if a < 10 && b < 10 {
        assert(decimal(a)[0] == (ZERO + a) as u8);
        assert(decimal(b)[0] == (ZERO + b) as u8);
        assert(decimal(a)[0] == decimal(b)[0]);
    } else if a >= 10 && b >= 10 {
        assert(decimal(a).last() == (ZERO + a % 10) as u8);
        assert(decimal(b).last() == (ZERO + b % 10) as u8);
        assert(decimal(a).last() == decimal(b).last());
        assert(a % 10 == b % 10);
        assert(decimal(a).drop_last() =~= decimal(a / 10));
        assert(decimal(b).drop_last() =~= decimal(b / 10));
        lemma_decimal_injective(a / 10, b / 10);
        assert(a == 10 * (a / 10) + a % 10) by (nonlinear_arith);
        assert(b == 10 * (b / 10) + b % 10) by (nonlinear_arith);
    } else {
        assert(decimal(a).len() != decimal(b).len());
    }
}

/// Archive names never collide: the bare name and the numbered names of one
/// day are pairwise different, none of them is the live file's name, and
/// the same holds of their compressed forms.
pub proof fn lemma_candidates_distinct(path: Seq<u8>, label: Seq<u8>, m: nat, n: nat)
    requires
        m != n,
    ensures
        candidate(path, label, m) != candidate(path, label, n),
        gz(candidate(path, label, m)) != gz(candidate(path, label, n)),
        candidate(path, label, m) != path,
        gz(candidate(path, label, m)) != path,
{
    let stem = archive_stem(path, label);
    let head = stem + seq![DASH];
    let cm = candidate(path, label, m);
    let cn = candidate(path, label, n);
    lemma_decimal_shape(m);
    lemma_decimal_shape(n);
    if m > 0 && n > 0 {
        if cm == cn {
            assert(cm == head + decimal(m));
            assert(cn == head + decimal(n));
            assert(cm.skip(head.len() as int) =~= decimal(m));
            assert(cn.skip(head.len() as int) =~= decimal(n));
            lemma_decimal_injective(m, n);
        }
    } else {
        assert(cm.len() != cn.len());
    }
    assert(cm.len() > path.len());
    if gz(cm) == gz(cn) {
        assert(gz(cm).take(cm.len() as int) =~= cm);
        assert(gz(cn).take(cn.len() as int) =~= cn);
        assert(gz(cm).len() == cm.len() + 3);
        assert(gz(cn).len() == cn.len() + 3);
        assert(cm.len() == cn.len());
        assert(cm == cn);
    }
}

proof fn lemma_dir_len(p: Seq<u8>)
    ensures
        dir_len(p) <= p.len(),
    decreases p.len(),
{
    if p.len() > 0 && p.last() != SLASH {
        lemma_dir_len(p.drop_last());
    }
}

proof fn lemma_sweep_targets_member(names: Seq<Seq<u8>>, path: Seq<u8>, label: Seq<u8>)
    ensures
        forall|t: Seq<u8>|
            sweep_targets(names, path, label).contains(t) <==> exists|i: int|
                0 <= i < names.len() && starts_with(
                    #[trigger] names[i],
                    archive_stem(base_part(path), label),
                ) && t == dir_part(path) + names[i],
    decreases names.len(),
{
    if names.len() > 0 {
        let d = names.drop_last();
        lemma_sweep_targets_member(d, path, label);
        let rest = sweep_targets(d, path, label);
        let stem = archive_stem(base_part(path), label);
        assert forall|t: Seq<u8>|
            sweep_targets(names, path, label).contains(t) <==> exists|i: int|
                0 <= i < names.len() && starts_with(#[trigger] names[i], stem) && t == dir_part(
                    path,
                ) + names[i] by {
            if sweep_targets(names, path, label).contains(t) {
                if rest.contains(t) {
                    let i = choose|i: int|
                        0 <= i < d.len() && starts_with(#[trigger] d[i], stem) && t == dir_part(
                            path,
                        ) + d[i];
                    assert(names[i] == d[i]);
                } else {
                    assert(starts_with(names[names.len() - 1], stem));
                    assert(t == dir_part(path) + names[names.len() - 1]);
                }
            }
            if exists|i: int|
                0 <= i < names.len() && starts_with(#[trigger] names[i], stem) && t == dir_part(
                    path,
                ) + names[i] {
                let i = choose|i: int|
                    0 <= i < names.len() && starts_with(#[trigger] names[i], stem) && t == dir_part(
                        path,
                    ) + names[i];
                if i < d.len() {
                    assert(d[i] == names[i]);
                    assert(rest.contains(t));
                    assert(sweep_targets(names, path, label).contains(t)) by {
                        if starts_with(names.last(), stem) {
                            let k = choose|k: int| 0 <= k < rest.len() && rest[k] == t;
                            assert(rest.push(dir_part(path) + names.last())[k] == t);
                        }
                    }
                } else {
                    assert(sweep_targets(names, path, label) == rest.push(
                        dir_part(path) + names.last(),
                    ));
                    assert(sweep_targets(names, path, label)[rest.len() as int] == t);
                }
            }
        }
    }
}

/// Retention removes exactly one day's archives. Among files listed next to
/// `path` whose names are `<base>.<label><suffix>`, with labels as long as
/// the expiry label (every `YYYYMMDD` label is), a sweep for `expiry`
/// removes the file if and only if its label is the expiry label.
pub proof fn lemma_sweep_exact_day(
    names: Seq<Seq<u8>>,
    path: Seq<u8>,
    expiry: Seq<u8>,
    label: Seq<u8>,
    suffix: Seq<u8>,
)
    requires
        label.len() == expiry.len(),
        names.contains(archive_stem(base_part(path), label) + suffix),
    ensures
        sweep_targets(names, path, expiry).contains(
            dir_part(path) + archive_stem(base_part(path), label) + suffix,
        ) <==> label == expiry,
{
    let base = base_part(path);
    let stem = archive_stem(base, expiry);
    let name = archive_stem(base, label) + suffix;
    let dir = dir_part(path);
    lemma_dir_len(path);
    lemma_sweep_targets_member(names, path, expiry);
    let i = choose|i: int| 0 <= i < names.len() && names[i] == name;
    if label == expiry {
        assert(name.take(stem.len() as int) =~= stem);
        assert(starts_with(names[i], stem));
        assert(dir + name == dir + archive_stem(base, label) + suffix) by {
            assert(dir + name =~= dir + archive_stem(base, label) + suffix);
        }
    } else {
        assert(!(label =~= expiry));
        let k = choose|k: int| 0 <= k < label.len() && label[k] != expiry[k];
        let at = base.len() + 1 + k;
        assert((base + seq![DOT] + label)[at] == label[k]);
        assert(name[at] == label[k]);
        assert(stem[at] == expiry[k]);
        if sweep_targets(names, path, expiry).contains(dir + name) {
            let j = choose|j: int|
                0 <= j < names.len() && starts_with(#[trigger] names[j], stem) && dir + name == dir
                    + names[j];
            assert(names[j] =~= (dir + names[j]).skip(dir.len() as int));
            assert(name =~= (dir + name).skip(dir.len() as int));
            assert(names[j].take(stem.len() as int)[base.len() + 1 + k] == stem[base.len() + 1
                + k]);
        }
        assert(dir + name =~= dir + archive_stem(base, label) + suffix);
    }
}

/// Retention never removes the live file: whatever the directory holds,
/// a sweep's targets never include `path` itself.
pub proof fn lemma_sweep_spares_live_file(names: Seq<Seq<u8>>, path: Seq<u8>, expiry: Seq<u8>)
    ensures
        !sweep_targets(names, path, expiry).contains(path),
{
    let base = base_part(path);
    let stem = archive_stem(base, expiry);
    let dir = dir_part(path);
    lemma_dir_len(path);
    lemma_sweep_targets_member(names, path, expiry);
    if sweep_targets(names, path, expiry).contains(path) {
        let j = choose|j: int|
            0 <= j < names.len() && starts_with(#[trigger] names[j], stem) && path == dir
                + names[j];
        assert(path =~= dir + base);
        assert(names[j] =~= (dir + names[j]).skip(dir.len() as int));
        assert(base =~= (dir + base).skip(dir.len() as int));
    }
}

} // verus!
