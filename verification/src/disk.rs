//! Disk savings: how much a clean run would reclaim, and sizes in words.
//!
//! The caller reads sizes off the disk; what counts and how it adds up is
//! decided here. Sums stop at the largest number rather than overflow.

use vstd::prelude::*;

use crate::clean::{Classification, CleanItem};
use crate::paths::join_path;
use crate::text::{cat2, cat3, decimal_text};

verus! {

/// Whether an item counts towards what can be reclaimed.
pub open spec fn counts(item: crate::clean::Item) -> bool {
    item.classification == Classification::Safe || item.classification == Classification::Surfaced
}

/// `n`, or the largest `u64` where it is beyond that.
pub open spec fn capped(n: nat) -> nat {
    if n <= u64::MAX {
        n
    } else {
        u64::MAX as nat
    }
}

/// The sum of the sizes that are known.
pub open spec fn known_sum(sizes: Seq<Result<u64, String>>) -> nat
    decreases sizes.len(),
{
    if sizes.len() == 0 {
        0
    } else {
        known_sum(sizes.drop_last()) + match sizes.last() {
            Ok(n) => n as nat,
            Err(_) => 0,
        }
    }
}

/// The sum of the known sizes of the items that count.
pub open spec fn reclaimable_sum(
    items: Seq<crate::clean::Item>,
    sizes: Seq<Result<u64, String>>,
) -> nat
    decreases items.len(),
{
    if items.len() == 0 || sizes.len() == 0 {
        0
    } else {
        reclaimable_sum(items.drop_last(), sizes.drop_last()) + if counts(items.last()) {
            match sizes.last() {
                Ok(n) => n as nat,
                Err(_) => 0,
            }
        } else {
            0
        }
    }
}

/// The warning for an item whose size could not be read.
pub open spec fn size_warning(path: Seq<char>, error: Seq<char>) -> Seq<char> {
    "warning: "@ + path + ": could not read size: "@ + error
}

/// The warnings for the items that count and whose size could not be read.
pub open spec fn size_warnings(
    items: Seq<crate::clean::Item>,
    sizes: Seq<Result<u64, String>>,
) -> Seq<Seq<char>>
    decreases items.len(),
{
    if items.len() == 0 || sizes.len() == 0 {
        Seq::empty()
    } else {
        let before = size_warnings(items.drop_last(), sizes.drop_last());
        match sizes.last() {
            Ok(_) => before,
            Err(e) => if counts(items.last()) {
                before.push(size_warning(items.last().rel_path, e@))
            } else {
                before
            },
        }
    }
}

fn capped_add(a: u64, b: u64) -> (r: u64)
    ensures
        r == capped((a + b) as nat),
{
    if a <= u64::MAX - b {
        a + b
    } else {
        u64::MAX
    }
}

/// Whether an item counts towards what can be reclaimed: everything but what
/// is protected does.
pub fn is_deletable(item: &CleanItem) -> (r: bool)
    ensures
        r == counts(item@),
{
    item.classification == Classification::Safe || item.classification == Classification::Surfaced
}

/// Where an item lies on disk.
pub fn item_path(project_path: &str, item: &CleanItem) -> (out: String)
    ensures
        out@ == crate::paths::joined_path(project_path@, item.rel_path@),
{
    join_path(project_path, item.rel_path.as_str())
}

/// How much the items that count take up, and a warning for each whose size
/// could not be read; such an item counts nothing. `sizes` holds what the disk
/// says of each item.
pub fn compute_reclaimable_size(items: &[CleanItem], sizes: &[Result<u64, String>]) -> (r: (
    u64,
    Vec<String>,
))
    requires
        items@.len() == sizes@.len(),
    ensures
        r.0 == capped(reclaimable_sum(crate::clean::item_views(items@), sizes@)),
        crate::text::texts(r.1@) == size_warnings(crate::clean::item_views(items@), sizes@),
{
    let ghost all = crate::clean::item_views(items@);
    let mut total: u64 = 0;
    let mut warnings: Vec<String> = Vec::new();
    let mut i: usize = 0;
    assert(crate::text::texts(warnings@) =~= size_warnings(all.take(0), sizes@.take(0)));
    while i < items.len()
        invariant
            i <= items@.len(),
            items@.len() == sizes@.len(),
            all == crate::clean::item_views(items@),
            total == capped(reclaimable_sum(all.take(i as int), sizes@.take(i as int))),
            crate::text::texts(warnings@) == size_warnings(
                all.take(i as int),
                sizes@.take(i as int),
            ),
        decreases items@.len() - i,
    {
        assert(all.take(i + 1).drop_last() =~= all.take(i as int));
        assert(all.take(i + 1).last() == items@[i as int]@);
        assert(sizes@.take(i + 1).drop_last() =~= sizes@.take(i as int));
        assert(sizes@.take(i + 1).last() == sizes@[i as int]);
        if is_deletable(&items[i]) {
            match &sizes[i] {
                Ok(n) => {
                    total = capped_add(total, *n);
                },
                Err(e) => {
                    let mut msg = cat3(
                        "warning: ",
                        items[i].rel_path.as_str(),
                        ": could not read size: ",
                    );
                    msg.append(e.as_str());
                    crate::text::push_line(&mut warnings, msg);
                },
            }
        }
        i = i + 1;
    }
    assert(all.take(i as int) =~= all);
    assert(sizes@.take(i as int) =~= sizes@);
    (total, warnings)
}

/// What a protected item takes up makes no difference to what can be
/// reclaimed.
pub proof fn protected_items_cost_nothing(
    items: Seq<crate::clean::Item>,
    sizes: Seq<Result<u64, String>>,
    i: int,
    other: Result<u64, String>,
)
    requires
        items.len() == sizes.len(),
        0 <= i < items.len(),
        items[i].classification == Classification::Protected,
    ensures
        reclaimable_sum(items, sizes.update(i, other)) == reclaimable_sum(items, sizes),
    decreases items.len(),
{
    if i == items.len() - 1 {
        assert(sizes.update(i, other).drop_last() =~= sizes.drop_last());
    } else {
        protected_items_cost_nothing(items.drop_last(), sizes.drop_last(), i, other);
        assert(sizes.update(i, other).drop_last() =~= sizes.drop_last().update(i, other));
    }
}

/// What lies at a path on disk, with the sizes that could be read.
pub enum DiskEntry {
    /// A symbolic link and the size of the link itself.
    Symlink(Result<u64, String>),
    /// A regular file and its size.
    File(Result<u64, String>),
    /// A directory and the sizes of the files and links below it.
    Directory(Vec<Result<u64, String>>),
    /// Nothing, or something without a size.
    Other,
}

/// The size of an entry: a link counts itself and not its target, a file that
/// cannot be read counts nothing, a directory counts what is below it.
pub fn compute_item_size(entry: &DiskEntry) -> (r: Result<u64, String>)
    ensures
        match *entry {
            DiskEntry::Symlink(Ok(n)) => r == Ok::<u64, String>(n),
            DiskEntry::Symlink(Err(e)) => r is Err && r->Err_0@ == e@,
            DiskEntry::File(Ok(n)) => r == Ok::<u64, String>(n),
            DiskEntry::File(Err(_)) => r == Ok::<u64, String>(0),
            DiskEntry::Directory(sizes) => r is Ok && r->Ok_0 == capped(known_sum(sizes@)),
            DiskEntry::Other => r == Ok::<u64, String>(0),
        },
{
    match entry {
        DiskEntry::Symlink(Ok(n)) => Ok(*n),
        DiskEntry::Symlink(Err(e)) => Err(e.clone()),
        DiskEntry::File(Ok(n)) => Ok(*n),
        DiskEntry::File(Err(_)) => Ok(0),
        DiskEntry::Directory(sizes) => Ok(directory_size(sizes)),
        DiskEntry::Other => Ok(0),
    }
}

/// The sizes that are known, added up.
pub fn directory_size(sizes: &Vec<Result<u64, String>>) -> (total: u64)
    ensures
        total == capped(known_sum(sizes@)),
{
    let mut total: u64 = 0;
    let mut i: usize = 0;
    assert(sizes@.take(0) =~= Seq::<Result<u64, String>>::empty());
    while i < sizes.len()
        invariant
            i <= sizes@.len(),
            total == capped(known_sum(sizes@.take(i as int))),
        decreases sizes@.len() - i,
    {
        assert(sizes@.take(i + 1).drop_last() =~= sizes@.take(i as int));
        assert(sizes@.take(i + 1).last() == sizes@[i as int]);
        match &sizes[i] {
            Ok(n) => {
                total = capped_add(total, *n);
            },
            Err(_) => {},
        }
        i = i + 1;
    }
    assert(sizes@.take(i as int) =~= sizes@);
    total
}

/// `a / b` rounded to the nearest whole number, halves to the even one.
pub open spec fn rounded_quotient(a: nat, b: nat) -> nat {
    let q = a / b;
    let r = a % b;
    if 2 * r < b || (2 * r == b && q % 2 == 0) {
        q
    } else {
        q + 1
    }
}

/// The spacing of doubles at `n`: the smallest power of two (from `step` on)
/// in steps of which 53 bits reach beyond `n`.
pub open spec fn double_step(n: nat, step: nat) -> nat
    decreases n - step,
    when step > 0
{
    if n < 0x20_0000_0000_0000 * step {
        step
    } else {
        double_step(n, step * 2)
    }
}

/// The double nearest to `n`. Up to 2^53 that is `n` itself.
pub open spec fn nearest_double(n: nat) -> nat {
    let step = double_step(n, 1);
    rounded_quotient(n, step) * step
}

/// `n` tenths (or hundredths) in decimal: `places` digits after the point.
pub open spec fn with_point(n: nat, places: nat) -> Seq<char> {
    if places == 1 {
        crate::text::decimal(n / 10) + "."@ + crate::text::decimal(n % 10)
    } else {
        crate::text::decimal(n / 100) + "."@ + crate::text::decimal(n / 10 % 10)
            + crate::text::decimal(n % 10)
    }
}

/// The size of a kilobyte, a megabyte and a gigabyte.
pub const KB: u64 = 0x400;

pub const MB: u64 = 0x10_0000;

pub const GB: u64 = 0x4000_0000;

/// A size in its largest whole unit. Below a kilobyte it is in bytes, above
/// with one or two digits after the point, rounded as a double would be
/// printed.
pub open spec fn size_text(bytes: nat, places: nat) -> Seq<char> {
    let v = nearest_double(bytes);
    let scale = if places == 1 {
        10nat
    } else {
        100nat
    };
    if bytes < KB {
        crate::text::decimal(bytes) + " B"@
    } else if bytes < MB {
        with_point(rounded_quotient(v * scale, KB as nat), places) + " KB"@
    } else if bytes < GB {
        with_point(rounded_quotient(v * scale, MB as nat), places) + " MB"@
    } else {
        with_point(rounded_quotient(v * scale, GB as nat), places) + " GB"@
    }
}

fn divide_rounded(a: u128, b: u128) -> (q: u128)
    requires
        b > 0,
        a < 0x1_0000_0000_0000_0000_0000,
        b < 0x1_0000_0000_0000_0000,
    ensures
        q == rounded_quotient(a as nat, b as nat),
        q <= a / b + 1,
{
    let q: u128 = a / b;
    let r: u128 = a % b;
    if 2 * r < b || (2 * r == b && q % 2 == 0) {
        q
    } else {
        assert(a / b <= a) by (nonlinear_arith)
            requires
                b > 0,
        ;
        q + 1
    }
}

/// The double nearest to a number.
fn as_double(n: u64) -> (v: u128)
    ensures
        v == nearest_double(n as nat),
        v < 0x2_0000_0000_0000_0000,
        n < 0x20_0000_0000_0000 ==> v == n,
{
    let wide: u128 = n as u128;
    let mut step: u128 = 1;
    while wide >= 0x20_0000_0000_0000 * step
        invariant
            wide == n,
            is_step(step as nat),
            double_step(n as nat, 1) == double_step(n as nat, step as nat),
            n < 0x20_0000_0000_0000 ==> step == 1,
        decreases 0x1000 - step,
    {
        step = step * 2;
    }
    let q: u128 = divide_rounded(wide, step);
    proof {
        if step == 1 {
            assert(wide as nat / 1 == wide && wide as nat % 1 == 0);
            assert(q == wide);
            assert(q * 1 == q);
        }
    }
    assert(q * step <= wide + step) by (nonlinear_arith)
        requires
            q <= wide / step + 1,
            step > 0,
    ;
    q * step
}

/// The spacings that doubles of 64-bit numbers have.
spec fn is_step(step: nat) -> bool {
    step == 1 || step == 2 || step == 4 || step == 8 || step == 16 || step == 32 || step == 64
        || step == 128 || step == 256 || step == 512 || step == 1024 || step == 2048
}

fn point_text(n: u64, two_places: bool) -> (out: String)
    ensures
        out@ == with_point(
            n as nat,
            if two_places {
                2
            } else {
                1
            },
        ),
{
    if two_places {
        let whole = decimal_text(n / 100);
        let tenths = decimal_text(n / 10 % 10);
        let mut out = cat3(whole.as_str(), ".", tenths.as_str());
        let rest = decimal_text(n % 10);
        out.append(rest.as_str());
        out
    } else {
        let whole = decimal_text(n / 10);
        let tenths = decimal_text(n % 10);
        cat3(whole.as_str(), ".", tenths.as_str())
    }
}

fn in_units(bytes: u64, unit: u64, two_places: bool, name: &str) -> (out: String)
    requires
        unit == KB || unit == MB || unit == GB,
    ensures
        out@ == with_point(
            rounded_quotient(
                nearest_double(bytes as nat) * (if two_places {
                    100nat
                } else {
                    10nat
                }),
                unit as nat,
            ),
            if two_places {
                2
            } else {
                1
            },
        ) + name@,
{
    let v: u128 = as_double(bytes);
    let scaled: u128 = if two_places {
        v * 100
    } else {
        v * 10
    };
    let q: u128 = divide_rounded(scaled, unit as u128);
    let text = point_text(q as u64, two_places);
    cat2(text.as_str(), name)
}

fn sized(bytes: u64, two_places: bool) -> (out: String)
    ensures
        out@ == size_text(
            bytes as nat,
            if two_places {
                2
            } else {
                1
            },
        ),
{
    if bytes < KB {
        let n = decimal_text(bytes);
        cat2(n.as_str(), " B")
    } else if bytes < MB {
        in_units(bytes, KB, two_places, " KB")
    } else if bytes < GB {
        in_units(bytes, MB, two_places, " MB")
    } else {
        in_units(bytes, GB, two_places, " GB")
    }
}

/// A size in words: bytes below a kilobyte, else the largest of KB, MB and GB
/// that keeps the number at one or more, with two decimals.
pub fn format_size(bytes: u64) -> (out: String)
    ensures
        out@ == size_text(bytes as nat, 2),
{
    sized(bytes, true)
}

/// A size in words, with one decimal.
pub fn format_size_short(bytes: u64) -> (out: String)
    ensures
        out@ == size_text(bytes as nat, 1),
{
    sized(bytes, false)
}

/// Sizes add up: what parts come to together is what each comes to by itself, and a size
/// that is not known counts nothing.
pub proof fn known_sizes_add_up(
    a: Seq<Result<u64, String>>,
    b: Seq<Result<u64, String>>,
    n: u64,
    e: String,
)
    ensures
        known_sum(Seq::empty()) == 0,
        known_sum(seq![Ok::<u64, String>(n)]) == n,
        known_sum(seq![Err::<u64, String>(e)]) == 0,
        known_sum(a + b) == known_sum(a) + known_sum(b),
    decreases b.len(),
{
    assert(seq![Ok::<u64, String>(n)].drop_last() =~= Seq::<Result<u64, String>>::empty());
    assert(seq![Err::<u64, String>(e)].drop_last() =~= Seq::<Result<u64, String>>::empty());
    assert(known_sum(Seq::<Result<u64, String>>::empty()) == 0);
    assert(seq![Ok::<u64, String>(n)].last() == Ok::<u64, String>(n));
    assert(seq![Err::<u64, String>(e)].last() == Err::<u64, String>(e));
    if b.len() == 0 {
        assert(a + b =~= a);
    } else {
        known_sizes_add_up(a, b.drop_last(), n, e);
        assert((a + b).drop_last() =~= a + b.drop_last());
        assert((a + b).last() == b.last());
    }
}

/// What can be reclaimed adds up item by item: a protected item counts nothing, any other
/// its size, or nothing where that is not known.
pub proof fn reclaimable_sizes_add_up(
    items: Seq<crate::clean::Item>,
    sizes: Seq<Result<u64, String>>,
    item: crate::clean::Item,
    size: Result<u64, String>,
)
    requires
        items.len() == sizes.len(),
    ensures
        reclaimable_sum(Seq::empty(), Seq::empty()) == 0,
        reclaimable_sum(items.push(item), sizes.push(size)) == reclaimable_sum(items, sizes)
            + if item.classification != Classification::Protected && size is Ok {
            size->Ok_0 as nat
        } else {
            0
        },
        size_warnings(Seq::empty(), Seq::empty()) == Seq::<Seq<char>>::empty(),
        item.classification != Classification::Protected && size is Err ==> size_warnings(
            items.push(item),
            sizes.push(size),
        ) == size_warnings(items, sizes).push(
            "warning: "@ + item.rel_path + ": could not read size: "@ + size->Err_0@,
        ),
        item.classification == Classification::Protected || size is Ok ==> size_warnings(
            items.push(item),
            sizes.push(size),
        ) == size_warnings(items, sizes),
{
    assert(items.push(item).drop_last() =~= items);
    assert(sizes.push(size).drop_last() =~= sizes);
}

/// A sum is itself up to the largest `u64`, and that beyond.
pub proof fn sums_stop_at_the_largest_number(n: nat)
    ensures
        n <= 0xffff_ffff_ffff_ffff ==> capped(n) == n,
        n > 0xffff_ffff_ffff_ffff ==> capped(n) == 0xffff_ffff_ffff_ffff,
{
}

/// A rounded quotient is a nearest whole number to the quotient, and the even one where
/// two are as near.
pub proof fn rounding_is_to_the_nearest(a: nat, b: nat)
    requires
        b > 0,
    ensures
        2 * (rounded_quotient(a, b) * b) <= 2 * a + b,
        2 * a <= 2 * (rounded_quotient(a, b) * b) + b,
        2 * (rounded_quotient(a, b) * b) == 2 * a + b || 2 * a == 2 * (rounded_quotient(a, b) * b)
            + b ==> rounded_quotient(a, b) % 2 == 0,
{
    let q = a / b;
    let r = a % b;
    assert(a == q * b + r && 0 <= r < b) by (nonlinear_arith)
        requires
            b > 0,
            q == a / b,
            r == a % b,
    ;
    assert((q + 1) * b == q * b + b) by (nonlinear_arith);
    let s = rounded_quotient(a, b);
    assert(s == q || s == q + 1);
    if s == q {
        assert(s * b == q * b);
    } else {
        assert(s * b == (q + 1) * b);
    }
}

proof fn lemma_point(a: Seq<char>, d: nat)
    requires
        d < 10,
    ensures
        crate::text::value_of(a + crate::text::decimal(d)) == crate::text::value_of(a) * 10 + d,
        crate::text::decimal(d).len() == 1,
{
    let t = crate::text::decimal(d);
    crate::text::decimals_stand_for_their_numbers(d);
    assert(t =~= seq![crate::text::digit(d)]);
    assert((a + t).drop_last() =~= a);
    assert((a + t).last() == t[0]);
    assert(t[0] as int == 0x30 + d) by {
        assert(t.drop_last() =~= Seq::<char>::empty());
        assert(crate::text::value_of(t.drop_last()) == 0);
        assert(crate::text::value_of(t) == t.last() as int - 0x30);
    }
}

/// A number with a point stands for the tenths or hundredths it was made from: its digits
/// without the point are that number, with one or two of them behind the point.
pub proof fn points_stand_where_they_should(n: nat)
    ensures
        ({
            let whole = crate::text::decimal(n / 10);
            let rest = crate::text::decimal(n % 10);
            &&& with_point(n, 1) == whole + "."@ + rest
            &&& rest.len() == 1
            &&& crate::text::value_of(whole + rest) == n
        }),
        exists|whole: Seq<char>, rest: Seq<char>|
            {
                &&& with_point(n, 2) == #[trigger] (whole + "."@ + rest)
                &&& rest.len() == 2
                &&& crate::text::value_of(whole + rest) == n
                &&& crate::text::value_of(whole) == n / 100
            },
{
    crate::text::decimals_stand_for_their_numbers(n / 10);
    lemma_point(crate::text::decimal(n / 10), n % 10);
    let whole = crate::text::decimal(n / 100);
    let tens = crate::text::decimal(n / 10 % 10);
    let ones = crate::text::decimal(n % 10);
    crate::text::decimals_stand_for_their_numbers(n / 100);
    lemma_point(whole, n / 10 % 10);
    lemma_point(whole + tens, n % 10);
    let rest = tens + ones;
    assert(whole + rest =~= whole + tens + ones);
    assert(n == n / 100 * 100 + n / 10 % 10 * 10 + n % 10) by (nonlinear_arith);
    assert(with_point(n, 2) =~= whole + "."@ + rest);
    lemma_point(Seq::empty(), n / 10 % 10);
    lemma_point(Seq::empty(), n % 10);
}

/// A size is shown in the largest unit that it reaches (1024 bytes to the kilobyte, and so
/// on), in bytes below the first; the number shown is the nearest, to a hundredth, to the
/// double that the size is read as, and that is the size itself up to the precision of
/// doubles.
pub proof fn sizes_are_shown_in_their_unit(bytes: nat)
    ensures
        bytes < 0x20_0000_0000_0000 ==> nearest_double(bytes) == bytes,
        bytes < 1024 ==> size_text(bytes, 2) == crate::text::decimal(bytes) + " B"@,
        1024 <= bytes < 1048576 ==> exists|n: nat|
            size_text(bytes, 2) == #[trigger] with_point(n, 2) + " KB"@ && 2 * (n * 1024) <= 2 * (
            nearest_double(bytes) * 100) + 1024 && 2 * (nearest_double(bytes) * 100) <= 2 * (n * 1024)
                + 1024,
        1048576 <= bytes < 1073741824 ==> exists|n: nat|
            size_text(bytes, 2) == #[trigger] with_point(n, 2) + " MB"@ && 2 * (n * 1048576) <= 2 * (
            nearest_double(bytes) * 100) + 1048576 && 2 * (nearest_double(bytes) * 100) <= 2 * (n
                * 1048576) + 1048576,
        1073741824 <= bytes ==> exists|n: nat|
            size_text(bytes, 2) == #[trigger] with_point(n, 2) + " GB"@ && 2 * (n * 1073741824) <= 2
                * (nearest_double(bytes) * 100) + 1073741824 && 2 * (nearest_double(bytes) * 100)
                <= 2 * (n * 1073741824) + 1073741824,
{
    let v = nearest_double(bytes) * 100;
    if bytes < 0x20_0000_0000_0000 {
        assert(double_step(bytes, 1) == 1);
        assert(bytes / 1 == bytes && bytes % 1 == 0) by (nonlinear_arith);
        assert(bytes * 1 == bytes);
    }
    rounding_is_to_the_nearest(v, 1024);
    rounding_is_to_the_nearest(v, 1048576);
    rounding_is_to_the_nearest(v, 1073741824);
    if 1024 <= bytes < 1048576 {
        let n = rounded_quotient(v, 1024);
        assert(size_text(bytes, 2) == with_point(n, 2) + " KB"@);
    } else if 1048576 <= bytes < 1073741824 {
        let n = rounded_quotient(v, 1048576);
        assert(size_text(bytes, 2) == with_point(n, 2) + " MB"@);
    } else if 1073741824 <= bytes {
        let n = rounded_quotient(v, 1073741824);
        assert(size_text(bytes, 2) == with_point(n, 2) + " GB"@);
    }
}

proof fn lemma_step_doubles(n: nat, step: nat, k: nat) -> (j: nat)
    requires
        step == vstd::arithmetic::power2::pow2(k),
        step > 0,
        k > 0 ==> 0x10_0000_0000_0000 * step <= n,
    ensures
        double_step(n, step) == vstd::arithmetic::power2::pow2(j),
        n < 0x20_0000_0000_0000 * double_step(n, step),
        j > 0 ==> 0x10_0000_0000_0000 * double_step(n, step) <= n,
    decreases n - step,
{
    if n < 0x20_0000_0000_0000 * step {
        k
    } else {
        vstd::arithmetic::power2::lemma_pow2_unfold(k + 1);
        lemma_step_doubles(n, step * 2, k + 1)
    }
}

/// A size is read as the nearest of the doubles around it. These stand a power of two
/// apart: the smallest with which 53 bits reach beyond the size.
pub proof fn doubles_are_the_nearest_there_are(n: nat) -> (k: nat)
    ensures
        ({
            let step = vstd::arithmetic::power2::pow2(k);
            &&& n < 0x20_0000_0000_0000 * step
            &&& k > 0 ==> 0x10_0000_0000_0000 * step <= n
            &&& step > 0
            &&& nearest_double(n) % step == 0
            &&& 2 * nearest_double(n) <= 2 * n + step
            &&& 2 * n <= 2 * nearest_double(n) + step
        }),
{
    vstd::arithmetic::power2::lemma2_to64();
    let k = lemma_step_doubles(n, 1, 0);
    vstd::arithmetic::power2::lemma_pow2_pos(k);
    let step = vstd::arithmetic::power2::pow2(k);
    rounding_is_to_the_nearest(n, step);
    vstd::arithmetic::div_mod::lemma_mod_multiples_basic(
        rounded_quotient(n, step) as int,
        step as int,
    );
    k
}

/// Where one digit is enough, a size is shown in the same units, to the nearest tenth.
pub proof fn short_sizes_are_shown_in_the_same_units(bytes: nat)
    ensures
        bytes < 1024 ==> size_text(bytes, 1) == crate::text::decimal(bytes) + " B"@,
        1024 <= bytes < 1048576 ==> exists|n: nat|
            size_text(bytes, 1) == #[trigger] with_point(n, 1) + " KB"@ && 2 * (n * 1024) <= 2 * (
            nearest_double(bytes) * 10) + 1024 && 2 * (nearest_double(bytes) * 10) <= 2 * (n * 1024)
                + 1024,
        1048576 <= bytes < 1073741824 ==> exists|n: nat|
            size_text(bytes, 1) == #[trigger] with_point(n, 1) + " MB"@ && 2 * (n * 1048576) <= 2 * (
            nearest_double(bytes) * 10) + 1048576 && 2 * (nearest_double(bytes) * 10) <= 2 * (n
                * 1048576) + 1048576,
        1073741824 <= bytes ==> exists|n: nat|
            size_text(bytes, 1) == #[trigger] with_point(n, 1) + " GB"@ && 2 * (n * 1073741824) <= 2
                * (nearest_double(bytes) * 10) + 1073741824 && 2 * (nearest_double(bytes) * 10) <= 2
                * (n * 1073741824) + 1073741824,
{
    let v = nearest_double(bytes) * 10;
    rounding_is_to_the_nearest(v, 1024);
    rounding_is_to_the_nearest(v, 1048576);
    rounding_is_to_the_nearest(v, 1073741824);
    if 1024 <= bytes < 1048576 {
        let n = rounded_quotient(v, 1024);
        assert(size_text(bytes, 1) == with_point(n, 1) + " KB"@);
    } else if 1048576 <= bytes < 1073741824 {
        let n = rounded_quotient(v, 1048576);
        assert(size_text(bytes, 1) == with_point(n, 1) + " MB"@);
    } else if 1073741824 <= bytes {
        let n = rounded_quotient(v, 1073741824);
        assert(size_text(bytes, 1) == with_point(n, 1) + " GB"@);
    }
}

} // verus!
