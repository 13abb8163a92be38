//! Where the two tiers of the cache keep their files.

use vstd::prelude::*;
use vstd::string::StringExecFns;

verus! {

/// The character of a decimal digit.
pub open spec fn digit_char(d: int) -> char {
    if d == 0 {
        '0'
    } else if d == 1 {
        '1'
    } else if d == 2 {
        '2'
    } else if d == 3 {
        '3'
    } else if d == 4 {
        '4'
    } else if d == 5 {
        '5'
    } else if d == 6 {
        '6'
    } else if d == 7 {
        '7'
    } else if d == 8 {
        '8'
    } else {
        '9'
    }
}

/// A natural number in decimal digits, without leading zeros.
pub open spec fn decimal_nat(n: nat) -> Seq<char>
    decreases n,
{
    if n < 10 {
        seq![digit_char(n as int)]
    } else {
        decimal_nat(n / 10).push(digit_char((n % 10) as int))
    }
}

/// An integer in decimal digits, with a minus sign before a negative one.
pub open spec fn decimal(n: int) -> Seq<char> {
    if n < 0 {
        seq!['-'] + decimal_nat((-n) as nat)
    } else {
        decimal_nat(n as nat)
    }
}

/// The digit `d` as a string.
fn digit_str(d: u64) -> (s: &'static str)
    requires
        d < 10,
    ensures
        s@ == seq![digit_char(d as int)],
{
    proof {
        reveal_strlit("0");
        reveal_strlit("1");
        reveal_strlit("2");
        reveal_strlit("3");
        reveal_strlit("4");
        reveal_strlit("5");
        reveal_strlit("6");
        reveal_strlit("7");
        reveal_strlit("8");
        reveal_strlit("9");
    }
    let s = if d == 0 {
        "0"
    } else if d == 1 {
        "1"
    } else if d == 2 {
        "2"
    } else if d == 3 {
        "3"
    } else if d == 4 {
        "4"
    } else if d == 5 {
        "5"
    } else if d == 6 {
        "6"
    } else if d == 7 {
        "7"
    } else if d == 8 {
        "8"
    } else {
        "9"
    };
    assert(s@ =~= seq![digit_char(d as int)]);
    s
}

/// Appends `n` in decimal digits.
pub fn push_decimal_nat(out: &mut String, n: u64)
    ensures
        final(out)@ == old(out)@ + decimal_nat(n as nat),
    decreases n,
{
    if n >= 10 {
        push_decimal_nat(out, n / 10);
    }
    out.append(digit_str(n % 10));
    assert(out@ =~= old(out)@ + decimal_nat(n as nat));
}

/// Appends `n` in decimal digits, with a minus sign before a negative one.
pub fn push_decimal(out: &mut String, n: i32)
    ensures
        final(out)@ == old(out)@ + decimal(n as int),
{
    if n < 0 {
        proof {
            reveal_strlit("-");
        }
        out.append("-");
        let m: u64 = (-(n as i64)) as u64;
        push_decimal_nat(out, m);
        assert(out@ =~= old(out)@ + decimal(n as int));
    } else {
        push_decimal_nat(out, n as u64);
    }
}

/// The directory of the world `name` below `root`.
pub open spec fn save_dir(root: Seq<char>, name: Seq<char>) -> Seq<char> {
    root + "/"@ + name
}

/// The name of the file that holds the parsed chunk at `coord`.
pub open spec fn chunk_file_name(coord: (i32, i32)) -> Seq<char> {
    "r."@ + decimal(coord.0 as int) + "."@ + decimal(coord.1 as int) + ".bin"@
}

/// The file that holds the parsed chunk at `coord`, below the directory of
/// its world.
pub open spec fn chunk_path(world_dir: Seq<char>, coord: (i32, i32)) -> Seq<char> {
    world_dir + "/chunks/"@ + chunk_file_name(coord)
}

/// The file that holds the map data fetched for the bounding box with the
/// key `bbox_key`, below the directory of its world.
pub open spec fn osm_path(world_dir: Seq<char>, bbox_key: Seq<char>) -> Seq<char> {
    world_dir + "/osm/"@ + bbox_key + ".osm"@
}

/// The directory of the world `name` below `root`.
pub fn get_save_dir(root: &str, name: &str) -> (dir: String)
    ensures
        dir@ == save_dir(root@, name@),
{
    let mut dir = String::from_str(root);
    dir.append("/");
    dir.append(name);
    dir
}

/// The file that holds the parsed chunk at `coord`.
pub fn get_chunk_path(world_dir: &str, coord: (i32, i32)) -> (path: String)
    ensures
        path@ == chunk_path(world_dir@, coord),
{
    let mut path = String::from_str(world_dir);
    path.append("/chunks/");
    path.append("r.");
    push_decimal(&mut path, coord.0);
    path.append(".");
    push_decimal(&mut path, coord.1);
    path.append(".bin");
    assert(path@ =~= chunk_path(world_dir@, coord));
    path
}

/// The file that holds the map data fetched for the bounding box with the
/// key `bbox_key`.
pub fn get_osm_path(world_dir: &str, bbox_key: &str) -> (path: String)
    ensures
        path@ == osm_path(world_dir@, bbox_key@),
{
    let mut path = String::from_str(world_dir);
    path.append("/osm/");
    path.append(bbox_key);
    path.append(".osm");
    path
}

/// Whether `c` is a decimal digit.
pub open spec fn is_digit(c: char) -> bool {
    exists|d: int| 0 <= d < 10 && c == digit_char(d)
}

/// The number that a digit stands for.
pub open spec fn digit_value(c: char) -> nat {
    if c == '0' {
        0
    } else if c == '1' {
        1
    } else if c == '2' {
        2
    } else if c == '3' {
        3
    } else if c == '4' {
        4
    } else if c == '5' {
        5
    } else if c == '6' {
        6
    } else if c == '7' {
        7
    } else if c == '8' {
        8
    } else {
        9
    }
}

/// The number that a sequence of digits stands for.
pub open spec fn digits_value(s: Seq<char>) -> nat
    decreases s.len(),
{
    if s.len() == 0 {
        0
    } else {
        digits_value(s.drop_last()) * 10 + digit_value(s.last())
    }
}

/// The digits of a number are digits, at least one, and stand for the
/// number.
pub proof fn lemma_decimal_nat(n: nat)
    ensures
        decimal_nat(n).len() >= 1,
        forall|i: int| 0 <= i < decimal_nat(n).len() ==> is_digit(#[trigger] decimal_nat(n)[i]),
        digits_value(decimal_nat(n)) == n,
    decreases n,
{
    let s = decimal_nat(n);
    if n < 10 {
        assert(s.last() == digit_char(n as int));
        assert(is_digit(s[0]));
        assert(s.drop_last() =~= Seq::<char>::empty());
        assert(digits_value(s.drop_last()) == 0);
        assert(digit_value(digit_char(n as int)) == n);
    } else {
        lemma_decimal_nat(n / 10);
        let d = (n % 10) as int;
        assert(s.drop_last() =~= decimal_nat(n / 10));
        assert(s.last() == digit_char(d));
        assert(digit_value(digit_char(d)) == d);
        assert forall|i: int| 0 <= i < s.len() implies is_digit(#[trigger] s[i]) by {
            if i < s.len() - 1 {
                assert(s[i] == decimal_nat(n / 10)[i]);
            } else {
                assert(s[i] == digit_char(d));
            }
        }
    }
}

/// Two integers with the same decimal digits are the same.
pub proof fn lemma_decimal_injective(a: int, b: int)
    requires
        decimal(a) == decimal(b),
    ensures
        a == b,
{
    let na = if a < 0 {
        (-a) as nat
    } else {
        a as nat
    };
    let nb = if b < 0 {
        (-b) as nat
    } else {
        b as nat
    };
    lemma_decimal_nat(na);
    lemma_decimal_nat(nb);
    if a < 0 && b < 0 {
        assert(decimal_nat(na) =~= decimal(a).subrange(1, decimal(a).len() as int));
        assert(decimal_nat(nb) =~= decimal(b).subrange(1, decimal(b).len() as int));
    } else if a < 0 {
        assert(decimal(a)[0] == '-');
        assert(is_digit(decimal_nat(nb)[0]));
    } else if b < 0 {
        assert(decimal(b)[0] == '-');
        assert(is_digit(decimal_nat(na)[0]));
    }
}

/// No character of a number in decimal is a dot.
pub proof fn lemma_decimal_has_no_dot(n: int, i: int)
    requires
        0 <= i < decimal(n).len(),
    ensures
        decimal(n)[i] != '.',
        decimal(n).len() >= 1,
{
    if n < 0 {
        lemma_decimal_nat((-n) as nat);
        if i > 0 {
            assert(is_digit(decimal_nat((-n) as nat)[i - 1]));
        }
    } else {
        lemma_decimal_nat(n as nat);
        assert(is_digit(decimal_nat(n as nat)[i]));
    }
}

/// Two chunks whose files have one name are one chunk.
pub proof fn lemma_chunk_file_name_injective(a: (i32, i32), b: (i32, i32))
    requires
        chunk_file_name(a) == chunk_file_name(b),
    ensures
        a == b,
{
    reveal_strlit("r.");
    reveal_strlit(".");
    reveal_strlit(".bin");
    let ax = decimal(a.0 as int);
    let ay = decimal(a.1 as int);
    let bx = decimal(b.0 as int);
    let by = decimal(b.1 as int);
    let na = chunk_file_name(a);
    let nb = chunk_file_name(b);
    assert(na.len() == 2 + ax.len() + 1 + ay.len() + 4);
    assert(nb.len() == 2 + bx.len() + 1 + by.len() + 4);
    assert(na[2 + ax.len() as int] == '.');
    assert(nb[2 + bx.len() as int] == '.');
    if ax.len() < bx.len() {
        lemma_decimal_has_no_dot(b.0 as int, ax.len() as int);
        assert(nb[2 + ax.len() as int] == bx[ax.len() as int]);
    } else if bx.len() < ax.len() {
        lemma_decimal_has_no_dot(a.0 as int, bx.len() as int);
        assert(na[2 + bx.len() as int] == ax[bx.len() as int]);
    }
    assert(ax =~= bx) by {
        assert forall|i: int| 0 <= i < ax.len() implies ax[i] == bx[i] by {
            assert(na[2 + i] == ax[i]);
            assert(nb[2 + i] == bx[i]);
        }
    }
    assert(ay =~= by) by {
        assert forall|i: int| 0 <= i < ay.len() implies ay[i] == by[i] by {
            assert(na[2 + ax.len() + 1 + i] == ay[i]);
            assert(nb[2 + bx.len() + 1 + i] == by[i]);
        }
    }
    lemma_decimal_injective(a.0 as int, b.0 as int);
    lemma_decimal_injective(a.1 as int, b.1 as int);
}

/// In one world, two chunks that are kept in one file are one chunk: what
/// is stored for a chunk is found again under that chunk and no other.
pub proof fn lemma_chunk_path_injective(world_dir: Seq<char>, a: (i32, i32), b: (i32, i32))
    requires
        chunk_path(world_dir, a) == chunk_path(world_dir, b),
    ensures
        a == b,
{
    let prefix = world_dir + "/chunks/"@;
    let pa = chunk_path(world_dir, a);
    let pb = chunk_path(world_dir, b);
    assert(chunk_file_name(a) =~= pa.subrange(prefix.len() as int, pa.len() as int));
    assert(chunk_file_name(b) =~= pb.subrange(prefix.len() as int, pb.len() as int));
    lemma_chunk_file_name_injective(a, b);
}

/// In one world, two bounding boxes whose map data is kept in one file have
/// one key.
pub proof fn lemma_osm_path_injective(world_dir: Seq<char>, a: Seq<char>, b: Seq<char>)
    requires
        osm_path(world_dir, a) == osm_path(world_dir, b),
    ensures
        a == b,
{
    let prefix = world_dir + "/osm/"@;
    let pa = osm_path(world_dir, a);
    let pb = osm_path(world_dir, b);
    assert(pa.len() == prefix.len() + a.len() + ".osm"@.len());
    assert(pb.len() == prefix.len() + b.len() + ".osm"@.len());
    assert(a =~= pa.subrange(prefix.len() as int, (prefix.len() + a.len()) as int));
    assert(b =~= pb.subrange(prefix.len() as int, (prefix.len() + b.len()) as int));
}

} // verus!
