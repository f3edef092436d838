//! Sizes as text, bounded text, the sum of what a directory walk found,
//! what removing a directory comes to, and paths as seen from a directory.

use vstd::prelude::*;
use vstd::string::*;
use vstd::utf8::*;
use crate::path::{component_bounds, components, path_components};
use crate::text::{
    bounds_within, chars_of, contains, contains_in, opt_str, parts, same_text, slice_of, texts,
};

verus! {

/// The decimal digit of `d`, for `d` below ten.
pub open spec fn digit_char(d: nat) -> char {
    if d == 0 {
        '0'
    } else if d == 1 {
        '1'
    } else if d == 2 {
        '2'
    } else if d == 3 {
        '3'
    } else if d == 4 {
        '4'
    } else if d == 5 {
        '5'
    } else if d == 6 {
        '6'
    } else if d == 7 {
        '7'
    } else if d == 8 {
        '8'
    } else {
        '9'
    }
}

/// `n` in decimal, without leading zeros.
pub open spec fn decimal(n: nat) -> Seq<char>
    decreases n,
{
    if n < 10 {
        seq![digit_char(n)]
    } else {
        decimal(n / 10).push(digit_char(n % 10))
    }
}

/// `count` spaces.
pub open spec fn spaces(count: nat) -> Seq<char> {
    Seq::new(count, |i: int| ' ')
}

/// `s`, filled up with spaces on the right to `width` characters; a longer
/// text stays as it is.
pub open spec fn padded(s: Seq<char>, width: nat) -> Seq<char> {
    if s.len() < width {
        s + spaces((width - s.len()) as nat)
    } else {
        s
    }
}

/// The nearest whole number to `num / den`, the even one of two that are
/// equally near.
pub open spec fn round_half_even(num: nat, den: nat) -> nat
    recommends
        den > 0,
{
    let q = num / den;
    let r = num % den;
    if 2 * r > den || (2 * r == den && q % 2 == 1) {
        q + 1
    } else {
        q
    }
}

/// The power of two in whose multiples a number of the size of `n` is held
/// with 53 significant bits: 1 below 2^53, then doubling with `n`.
pub open spec fn step_of(n: nat) -> nat
    decreases n,
{
    if n < 0x20_0000_0000_0000 {
        1
    } else {
        2 * step_of(n / 2)
    }
}

/// `n` as a double-precision number holds it: rounded to 53 significant
/// bits, ties to even. Sizes below 2^53 bytes are held exactly.
pub open spec fn held(n: nat) -> nat {
    round_half_even(n, step_of(n)) * step_of(n)
}

/// The number of bytes in the unit that sizes are shown in: a gibibyte or a
/// mebibyte.
pub open spec fn unit_bytes(use_gb: bool) -> nat {
    if use_gb {
        0x4000_0000
    } else {
        0x10_0000
    }
}

/// The unit's label, with the space before it.
pub open spec fn unit_label(use_gb: bool) -> Seq<char> {
    if use_gb {
        " GB"@
    } else {
        " MB"@
    }
}

/// `bytes` in hundredths of the unit, rounded to the nearest, ties to even.
pub open spec fn hundredths(bytes: nat, use_gb: bool) -> nat {
    round_half_even(held(bytes) * 100, unit_bytes(use_gb))
}

/// A size as it is shown: the whole units, a point, two decimals, the label.
pub open spec fn size_text(bytes: nat, use_gb: bool) -> Seq<char> {
    let h = hundredths(bytes, use_gb);
    decimal(h / 100) + seq!['.', digit_char((h / 10) % 10), digit_char(h % 10)] + unit_label(
        use_gb,
    )
}

/// The text that the first `k` bytes of the UTF-8 form of `s` hold.
pub open spec fn byte_prefix(s: Seq<char>, k: int) -> Seq<char> {
    decode_utf8(encode_utf8(s).subrange(0, k))
}

/// The text that the UTF-8 form of `s` holds from byte `k` on.
pub open spec fn byte_suffix(s: Seq<char>, k: int) -> Seq<char> {
    decode_utf8(encode_utf8(s).subrange(k, encode_utf8(s).len() as int))
}

/// Where a text longer than `max_len` bytes is cut: three bytes before
/// `max_len`, for the ellipsis, and at the start where `max_len` is smaller.
pub open spec fn cut_point(max_len: nat) -> nat {
    if max_len >= 3 {
        (max_len - 3) as nat
    } else {
        0
    }
}

/// `s` bounded to `max_len` bytes: itself where it fits, else its bytes up
/// to the cut point followed by an ellipsis of three dots.
pub open spec fn truncated(s: Seq<char>, max_len: nat) -> Seq<char> {
    if encode_utf8(s).len() <= max_len {
        s
    } else {
        byte_prefix(s, cut_point(max_len) as int) + "..."@
    }
}

/// Path fragments that mark a directory of the operating system.
pub open spec fn system_markers() -> Seq<Seq<char>> {
    seq![
        "System"@,
        "Windows"@,
        "Program Files"@,
        "Applications"@,
        "/usr"@,
        "/bin"@,
        "/sbin"@,
        "/etc"@,
        "/var"@,
        "/opt"@,
    ]
}

/// Whether one of the system markers stands somewhere in `path`.
pub open spec fn is_system_path(path: Seq<char>) -> bool {
    exists|k: int|
        0 <= k < system_markers().len() && contains(path, #[trigger] system_markers()[k])
}

/// The digit of `d` as a text of one character.
fn digit_str(d: u8) -> (r: &'static str)
    requires
        d < 10,
    ensures
        r@ == seq![digit_char(d as nat)],
{
    proof {
        reveal_strlit("0");
        reveal_strlit("1");
        reveal_strlit("2");
        reveal_strlit("3");
        reveal_strlit("4");
        reveal_strlit("5");
        reveal_strlit("6");
        reveal_strlit("7");
        reveal_strlit("8");
        reveal_strlit("9");
    }
    let r = if d == 0 {
        "0"
    } else if d == 1 {
        "1"
    } else if d == 2 {
        "2"
    } else if d == 3 {
        "3"
    } else if d == 4 {
        "4"
    } else if d == 5 {
        "5"
    } else if d == 6 {
        "6"
    } else if d == 7 {
        "7"
    } else if d == 8 {
        "8"
    } else {
        "9"
    };
    assert(r@ =~= seq![digit_char(d as nat)]);
    r
}

/// Appends `n` in decimal to `out`.
pub fn push_decimal(out: &mut String, n: u128)
    ensures
        final(out)@ == old(out)@ + decimal(n as nat),
    decreases n,
{
    if n >= 10 {
        push_decimal(out, n / 10);
    }
    let d: u8 = (n % 10) as u8;
    out.append(digit_str(d));
    proof {
        if n >= 10 {
            assert(final(out)@ =~= old(out)@ + decimal(n as nat));
        } else {
            assert(final(out)@ =~= old(out)@ + decimal(n as nat));
        }
    }
}

/// `n` in decimal.
pub fn decimal_string(n: u128) -> (r: String)
    ensures
        r@ == decimal(n as nat),
{
    let mut r = String::new();
    push_decimal(&mut r, n);
    assert(r@ =~= decimal(n as nat));
    r
}

/// `s`, filled up with spaces on the right to `width` characters.
pub fn pad_right(s: &str, width: usize) -> (r: String)
    ensures
        r@ == padded(s@, width as nat),
{
    let n = s.unicode_len();
    let mut r = s.to_owned();
    let mut i: usize = n;
    proof {
        reveal_strlit(" ");
        assert(r@ =~= s@ + spaces(0));
    }
    while i < width
        invariant
            n <= i,
            n == s@.len(),
            i <= width || i == n,
            r@ == s@ + spaces((i - n) as nat),
            " "@ == seq![' '],
        decreases width - i,
    {
        r.append(" ");
        i = i + 1;
        assert(r@ =~= s@ + spaces((i - n) as nat));
    }
    proof {
        if n >= width {
            assert(r@ =~= s@);
        }
    }
    r
}

/// The step is at least 1, and 2^52 steps never exceed a number that is
/// held in steps of more than 1.
proof fn lemma_step_of(n: nat)
    ensures
        step_of(n) >= 1,
        step_of(n) == 1 || step_of(n) * 0x10_0000_0000_0000 <= n,
    decreases n,
{
    if n < 0x20_0000_0000_0000 {
    } else {
        lemma_step_of(n / 2);
    }
}

/// The step of `n`, for `n` that fits 64 bits.
fn step_for(n: u64) -> (step: u64)
    ensures
        step == step_of(n as nat),
        1 <= step < 0x1000,
{
    let mut m: u64 = n;
    let mut step: u64 = 1;
    proof {
        lemma_step_of(n as nat);
    }
    while m >= 0x20_0000_0000_0000
        invariant
            step_of(n as nat) == step * step_of(m as nat),
            1 <= step,
            step_of(n as nat) < 0x1000,
        decreases m,
    {
        proof {
            lemma_step_of(m as nat);
            lemma_step_of((m / 2) as nat);
            assert(step * (2 * step_of((m / 2) as nat)) == (step * 2) * step_of((m / 2) as nat))
                by (nonlinear_arith);
            assert(step * 2 <= (step * 2) * step_of((m / 2) as nat)) by (nonlinear_arith)
                requires
                    step_of((m / 2) as nat) >= 1,
                    step >= 1,
            ;
        }
        m = m / 2;
        step = step * 2;
    }
    proof {
        assert(step * 1 == step) by (nonlinear_arith);
    }
    step
}

/// `num / den` rounded to the nearest whole number, ties to even.
fn rounded_quotient(num: u128, den: u128) -> (r: u128)
    requires
        den > 0,
        num < 0x8000_0000_0000_0000_0000_0000_0000_0000,
        den < 0x4000_0000_0000_0000_0000_0000_0000_0000,
    ensures
        r == round_half_even(num as nat, den as nat),
{
    let q = num / den;
    let r = num % den;
    if 2 * r > den || (2 * r == den && q % 2 == 1) {
        q + 1
    } else {
        q
    }
}

/// A number of bytes as a size in mebibytes, or in gibibytes where `use_gb`,
/// with two decimals.
///
/// The size is taken with the 53 significant bits of a double-precision
/// number and rounded to the nearest hundredth of the unit, ties to even.
pub fn format_size(bytes: u64, use_gb: bool) -> (r: String)
    ensures
        r@ == size_text(bytes as nat, use_gb),
{
    let step = step_for(bytes);
    let q = rounded_quotient(bytes as u128, step as u128);
    proof {
        assert((bytes as nat) / (step as nat) <= bytes) by (nonlinear_arith)
            requires
                step >= 1,
        ;
        assert(q * step <= 0x1_0000_0000_0000_0000 * 0x1000) by (nonlinear_arith)
            requires
                q <= 0x1_0000_0000_0000_0000,
                step <= 0x1000,
        ;
    }
    let kept: u128 = q * (step as u128);
    assert(kept == held(bytes as nat));
    let unit: u128 = if use_gb {
        0x4000_0000
    } else {
        0x10_0000
    };
    let h = rounded_quotient(kept * 100, unit);
    assert(h == hundredths(bytes as nat, use_gb));
    let mut r = String::new();
    push_decimal(&mut r, h / 100);
    r.append(".");
    r.append(digit_str(((h / 10) % 10) as u8));
    r.append(digit_str((h % 10) as u8));
    if use_gb {
        r.append(" GB");
    } else {
        r.append(" MB");
    }
    proof {
        reveal_strlit(".");
        assert(r@ =~= size_text(bytes as nat, use_gb));
    }
    r
}

/// `s` bounded to `max_len` bytes, with an ellipsis where it was cut.
///
/// A text that does not fit is cut three bytes before `max_len`; the cut
/// must not fall inside a character.
pub fn truncate_string(s: &str, max_len: usize) -> (r: String)
    requires
        encode_utf8(s@).len() > max_len ==> is_char_boundary(
            encode_utf8(s@),
            cut_point(max_len as nat) as int,
        ),
    ensures
        r@ == truncated(s@, max_len as nat),
{
    broadcast use encode_utf8_decode_utf8, encode_utf8_valid_utf8;

    if s.as_bytes().len() <= max_len {
        s.to_owned()
    } else {
        let k: usize = if max_len >= 3 {
            max_len - 3
        } else {
            0
        };
        let (head, _) = s.split_at(k);
        let mut r = head.to_owned();
        r.append("...");
        proof {
            assert(head@ == decode_utf8(encode_utf8(head@)));
            assert(head.spec_bytes() == encode_utf8(head@));
        }
        r
    }
}

/// Whether `path` names a directory of the operating system: whether one
/// of the system markers stands somewhere in it.
pub fn _is_system_directory(path: &str) -> (r: bool)
    ensures
        r == is_system_path(path@),
{
    let p = chars_of(path);
    let markers: [&str; 10] = [
        "System",
        "Windows",
        "Program Files",
        "Applications",
        "/usr",
        "/bin",
        "/sbin",
        "/etc",
        "/var",
        "/opt",
    ];
    let mut k: usize = 0;
    while k < 10
        invariant
            k <= 10,
            markers@.len() == 10,
            p@ == path@,
            forall|j: int| 0 <= j < 10 ==> (#[trigger] markers@[j])@ == system_markers()[j],
            forall|j: int| 0 <= j < k ==> !contains(path@, #[trigger] system_markers()[j]),
        decreases 10 - k,
    {
        let m = chars_of(markers[k]);
        assert(p@.subrange(0, p@.len() as int) =~= p@);
        if contains_in(&p, 0, p.len(), &m) {
            return true;
        }
        k = k + 1;
    }
    false
}

/// One entry that a walk of a directory tree came by: whether it is a
/// regular file, and its size where that could be read. A symbolic link is
/// no regular file, whatever it points to.
#[derive(Debug, Clone, Copy, PartialEq, Eq, Structural)]
pub struct FileEntry {
    pub is_file: bool,
    pub size: Option<u64>,
}

/// What an entry adds to the size of its tree: the size of a regular file
/// that could be read, and nothing otherwise.
pub open spec fn counted_size(entry: FileEntry) -> nat {
    if entry.is_file && entry.size is Some {
        entry.size->0 as nat
    } else {
        0
    }
}

/// The bytes in the regular files among the entries.
pub open spec fn total_file_size(entries: Seq<FileEntry>) -> nat
    decreases entries.len(),
{
    if entries.len() == 0 {
        0
    } else {
        total_file_size(entries.drop_last()) + counted_size(entries.last())
    }
}

/// The first entries of a walk never hold more than all of them.
pub proof fn lemma_total_file_size_grows(entries: Seq<FileEntry>, k: int)
    requires
        0 <= k <= entries.len(),
    ensures
        total_file_size(entries.take(k)) <= total_file_size(entries),
    decreases entries.len() - k,
{
    if k < entries.len() {
        lemma_total_file_size_grows(entries, k + 1);
        assert(entries.take(k + 1).drop_last() =~= entries.take(k));
    } else {
        assert(entries.take(k) =~= entries);
    }
}

/// The size of a directory tree from the entries of its walk, or `None`
/// where the size does not fit 64 bits.
pub fn checked_dir_size(entries: &Vec<FileEntry>) -> (total: Option<u64>)
    ensures
        total is Some <==> total_file_size(entries@) <= u64::MAX,
        total is Some ==> total->0 == total_file_size(entries@),
{
    let mut total: u64 = 0;
    let mut k: usize = 0;
    assert(entries@.take(0) =~= Seq::<FileEntry>::empty());
    while k < entries.len()
        invariant
            k <= entries.len(),
            total == total_file_size(entries@.take(k as int)),
        decreases entries.len() - k,
    {
        let entry = entries[k];
        proof {
            assert(entries@.take(k as int + 1).drop_last() =~= entries@.take(k as int));
            lemma_total_file_size_grows(entries@, k as int + 1);
        }
        if entry.is_file {
            match entry.size {
                Some(n) => {
                    if n > u64::MAX - total {
                        return None;
                    }
                    total = total + n;
                },
                None => {},
            }
        }
        k = k + 1;
    }
    assert(entries@.take(k as int) =~= entries@);
    Some(total)
}

/// The size of a directory tree from the entries of its walk: the bytes in
/// its regular files. Symbolic links count nothing, and neither does a file
/// whose size could not be read.
pub fn calculate_dir_size(entries: &Vec<FileEntry>) -> (total: u64)
    requires
        total_file_size(entries@) <= u64::MAX,
    ensures
        total == total_file_size(entries@),
{
    match checked_dir_size(entries) {
        Some(total) => total,
        None => 0,
    }
}

/// What is to be done to remove a directory.
#[derive(Debug, Clone)]
pub enum Removal {
    /// A dry run: show the notice, wait for the pause, and touch nothing.
    Simulate { notice: String, pause_millis: u64 },
    /// Remove the directory with all that is in it.
    Remove,
    /// The directory is not there: nothing to do.
    Nothing,
}

/// The notice that a dry run shows in place of removing `path`.
pub open spec fn dry_run_notice(path: Seq<char>) -> Seq<char> {
    " [DRY RUN] Would delete: "@ + path
}

/// How long a dry run waits in place of removing, in milliseconds.
pub open spec fn dry_run_pause() -> u64 {
    100
}

/// Whether removing comes to removing something on disk: never in a dry
/// run, and otherwise where the directory exists.
pub open spec fn removes(dry_run: bool, exists: bool) -> bool {
    !dry_run && exists
}

/// What is to be done to remove the directory at `path`, which exists or
/// does not. A dry run removes nothing: it shows a notice and waits.
pub fn remove_directory(path: &str, dry_run: bool, exists: bool) -> (plan: Removal)
    ensures
        plan is Remove <==> removes(dry_run, exists),
        plan is Simulate <==> dry_run,
        plan matches Removal::Simulate { notice, pause_millis } ==> notice@ == dry_run_notice(path@)
            && pause_millis == dry_run_pause(),
{
    if dry_run {
        let mut notice = " [DRY RUN] Would delete: ".to_owned();
        notice.append(path);
        Removal::Simulate { notice, pause_millis: 100 }
    } else if exists {
        Removal::Remove
    } else {
        Removal::Nothing
    }
}


/// The components in one text, with a separator between each two.
pub open spec fn slash_joined(components: Seq<Seq<char>>) -> Seq<char>
    decreases components.len(),
{
    if components.len() == 0 {
        Seq::empty()
    } else if components.len() == 1 {
        components[0]
    } else {
        slash_joined(components.drop_last()) + seq!['/'] + components.last()
    }
}

/// Whether the list `a` begins the list `b`.
pub open spec fn begins(a: Seq<Seq<char>>, b: Seq<Seq<char>>) -> bool {
    a.len() <= b.len() && b.take(a.len() as int) == a
}

/// `path` as seen from the directory `base`: where the components of
/// `base` begin those of `path`, the components of `path` that follow
/// them, with one separator between each two; otherwise, and where `base`
/// has no components or is not known, `path` as it is.
///
/// The rest is put together from its components, so repeated separators
/// and single dots in it are gone: under `a`, both `a/b//c` and `a/b/./c`
/// are `b/c`.
pub open spec fn relative_to(path: Seq<char>, base: Option<Seq<char>>) -> Seq<char> {
    if base is Some && components(base->0).len() > 0 && begins(
        components(base->0),
        components(path),
    ) {
        slash_joined(components(path).skip(components(base->0).len() as int))
    } else {
        path
    }
}

/// `path` as seen from the current directory, where that is known. What
/// is left of the path is put together from its components: repeated
/// separators and single dots in it do not come back.
pub fn get_relative_path(path: &str, current_dir: Option<&str>) -> (r: String)
    ensures
        r@ == relative_to(path@, opt_str(current_dir)),
{
    let base = match current_dir {
        Some(base) => base,
        None => {
            return path.to_owned();
        },
    };
    let b = path_components(base);
    let text = chars_of(path);
    let bounds = component_bounds(&text);
    let ghost own = components(path@);
    let ghost other = components(base@);
    if b.len() == 0 || b.len() > bounds.len() {
        return path.to_owned();
    }
    let mut k: usize = 0;
    while k < b.len()
        invariant
            k <= b.len() <= bounds.len(),
            text@ == path@,
            own == components(path@),
            other == components(base@),
            opt_str(current_dir) == Some(base@),
            texts(b@) == other,
            parts(text@, bounds@) == own,
            bounds_within(bounds@, 0, text@.len() as int),
            forall|j: int| 0 <= j < k ==> own[j] == other[j],
        decreases b.len() - k,
    {
        let (from, to) = bounds[k];
        let piece = slice_of(&text, from, to);
        assert(piece@ == own[k as int]);
        assert(b@[k as int]@ == other[k as int]);
        if !same_text(&piece, &b[k]) {
            proof {
                assert(b@.len() == other.len());
                assert(own.take(other.len() as int)[k as int] == own[k as int]);
                assert(own[k as int] != other[k as int]);
                assert(!begins(other, own));
            }
            return path.to_owned();
        }
        k = k + 1;
    }
    assert(own.take(other.len() as int) =~= other);
    let mut r = String::new();
    let ghost rest = own.skip(other.len() as int);
    let mut i: usize = b.len();
    proof {
        reveal_strlit("/");
        assert(rest.take(0) =~= Seq::<Seq<char>>::empty());
    }
    while i < bounds.len()
        invariant
            b.len() <= i <= bounds.len(),
            b.len() == other.len(),
            text@ == path@,
            own == components(path@),
            opt_str(current_dir) == Some(base@),
            rest == own.skip(other.len() as int),
            parts(text@, bounds@) == own,
            bounds_within(bounds@, 0, text@.len() as int),
            r@ == slash_joined(rest.take(i - b.len())),
            "/"@ == seq!['/'],
        decreases bounds.len() - i,
    {
        let (from, to) = bounds[i];
        let piece = path.substring_char(from, to);
        let ghost done = rest.take(i - b.len());
        let ghost next = rest.take(i - b.len() + 1);
        proof {
            assert(piece@ == own[i as int]);
            assert(next.drop_last() =~= done);
            assert(next.last() == own[i as int]);
        }
        if i > b.len() {
            r.append("/");
        }
        r.append(piece);
        proof {
            if i > b.len() {
                assert(r@ =~= slash_joined(done) + seq!['/'] + piece@);
            } else {
                assert(done.len() == 0);
                assert(r@ =~= piece@);
            }
        }
        i = i + 1;
    }
    assert(rest.take(i - b.len()) =~= rest);
    r
}


} // verus!
