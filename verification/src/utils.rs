use crate::decimal::{decimal_of, digit_char, digit_text, push_decimal};
use vstd::prelude::*;
use vstd::string::{StrSliceExecFns, StringExecFns};

verus! {

/// Whether `name` is, letter for letter, one of the directory names that
/// hold regenerable artifacts: package stores, build outputs, caches,
/// virtual environments, version managers, editor and system metadata.
pub open spec fn is_temp_name(name: Seq<char>) -> bool {
    ||| name == "node_modules"@
    ||| name == ".npm"@
    ||| name == ".yarn"@
    ||| name == ".pnpm-store"@
    ||| name == ".turbo"@
    ||| name == ".parcel-cache"@
    ||| name == ".webpack"@
    ||| name == ".rollup.cache"@
    ||| name == ".vite"@
    ||| name == ".next"@
    ||| name == ".nuxt"@
    ||| name == ".output"@
    ||| name == ".vercel"@
    ||| name == ".netlify"@
    ||| name == "bower_components"@
    ||| name == ".venv"@
    ||| name == "venv"@
    ||| name == "env"@
    ||| name == ".env"@
    ||| name == "__pycache__"@
    ||| name == ".pytest_cache"@
    ||| name == ".mypy_cache"@
    ||| name == ".tox"@
    ||| name == ".eggs"@
    ||| name == "*.egg-info"@
    ||| name == ".ipynb_checkpoints"@
    ||| name == "target"@
    ||| name == ".fingerprint"@
    ||| name == ".cargo"@
    ||| name == "dist"@
    ||| name == "build"@
    ||| name == "out"@
    ||| name == ".build"@
    ||| name == "_build"@
    ||| name == ".gradle"@
    ||| name == ".mvn"@
    ||| name == ".cache"@
    ||| name == "cache"@
    ||| name == ".tmp"@
    ||| name == "tmp"@
    ||| name == "temp"@
    ||| name == ".temp"@
    ||| name == ".nvm"@
    ||| name == ".rvm"@
    ||| name == ".rbenv"@
    ||| name == ".pyenv"@
    ||| name == ".idea"@
    ||| name == ".vscode"@
    ||| name == ".vs"@
    ||| name == ".eclipse"@
    ||| name == ".settings"@
    ||| name == ".DS_Store"@
    ||| name == "Thumbs.db"@
    ||| name == ".Trash"@
    ||| name == "coverage"@
    ||| name == ".coverage"@
    ||| name == ".nyc_output"@
    ||| name == "htmlcov"@
    ||| name == ".sass-cache"@
    ||| name == ".docusaurus"@
}

/// Whether two texts hold the same characters.
pub fn same_text(a: &str, b: &str) -> (r: bool)
    ensures
        r == (a@ == b@),
{
    let n = a.unicode_len();
    if n != b.unicode_len() {
        return false;
    }
    let mut i: usize = 0;
    while i < n
        invariant
            i <= n,
            n == a@.len(),
            n == b@.len(),
            forall|j: int| 0 <= j < i ==> a@[j] == b@[j],
        decreases n - i,
    {
        if a.get_char(i) != b.get_char(i) {
            return false;
        }
        i += 1;
    }
    proof {
        assert(a@ =~= b@);
    }
    true
}

/// Check if a directory name indicates a temporary directory.
///
/// The match is exact and case-sensitive: no prefix, suffix or substring
/// of a name counts.
pub fn is_temp_directory(name: &str) -> (r: bool)
    ensures
        r == is_temp_name(name@),
{
    same_text(name, "node_modules")
        || same_text(name, ".npm")
        || same_text(name, ".yarn")
        || same_text(name, ".pnpm-store")
        || same_text(name, ".turbo")
        || same_text(name, ".parcel-cache")
        || same_text(name, ".webpack")
        || same_text(name, ".rollup.cache")
        || same_text(name, ".vite")
        || same_text(name, ".next")
        || same_text(name, ".nuxt")
        || same_text(name, ".output")
        || same_text(name, ".vercel")
        || same_text(name, ".netlify")
        || same_text(name, "bower_components")
        || same_text(name, ".venv")
        || same_text(name, "venv")
        || same_text(name, "env")
        || same_text(name, ".env")
        || same_text(name, "__pycache__")
        || same_text(name, ".pytest_cache")
        || same_text(name, ".mypy_cache")
        || same_text(name, ".tox")
        || same_text(name, ".eggs")
        || same_text(name, "*.egg-info")
        || same_text(name, ".ipynb_checkpoints")
        || same_text(name, "target")
        || same_text(name, ".fingerprint")
        || same_text(name, ".cargo")
        || same_text(name, "dist")
        || same_text(name, "build")
        || same_text(name, "out")
        || same_text(name, ".build")
        || same_text(name, "_build")
        || same_text(name, ".gradle")
        || same_text(name, ".mvn")
        || same_text(name, ".cache")
        || same_text(name, "cache")
        || same_text(name, ".tmp")
        || same_text(name, "tmp")
        || same_text(name, "temp")
        || same_text(name, ".temp")
        || same_text(name, ".nvm")
        || same_text(name, ".rvm")
        || same_text(name, ".rbenv")
        || same_text(name, ".pyenv")
        || same_text(name, ".idea")
        || same_text(name, ".vscode")
        || same_text(name, ".vs")
        || same_text(name, ".eclipse")
        || same_text(name, ".settings")
        || same_text(name, ".DS_Store")
        || same_text(name, "Thumbs.db")
        || same_text(name, ".Trash")
        || same_text(name, "coverage")
        || same_text(name, ".coverage")
        || same_text(name, ".nyc_output")
        || same_text(name, "htmlcov")
        || same_text(name, ".sass-cache")
        || same_text(name, ".docusaurus")
}

/// Bytes in a kibibyte.
pub const KB: u64 = 1024;

/// Bytes in a mebibyte.
pub const MB: u64 = 1048576;

/// Bytes in a gibibyte.
pub const GB: u64 = 1073741824;

/// Bytes in a tebibyte.
pub const TB: u64 = 1099511627776;

/// The spacing of the numbers with 53 significant bits around `bytes`:
/// 1 below 2^53, and doubling with every power of two above.
pub open spec fn spacing(bytes: nat) -> nat {
    if bytes < 0x20_0000_0000_0000 {
        1
    } else if bytes < 0x40_0000_0000_0000 {
        2
    } else if bytes < 0x80_0000_0000_0000 {
        4
    } else if bytes < 0x100_0000_0000_0000 {
        8
    } else if bytes < 0x200_0000_0000_0000 {
        16
    } else if bytes < 0x400_0000_0000_0000 {
        32
    } else if bytes < 0x800_0000_0000_0000 {
        64
    } else if bytes < 0x1000_0000_0000_0000 {
        128
    } else if bytes < 0x2000_0000_0000_0000 {
        256
    } else if bytes < 0x4000_0000_0000_0000 {
        512
    } else if bytes < 0x8000_0000_0000_0000 {
        1024
    } else {
        2048
    }
}

/// `value` in units of `unit`, rounded to the nearest whole unit, and to
/// the even one of two that are equally near.
pub open spec fn rounded_quotient(value: nat, unit: nat) -> nat {
    let q = value / unit;
    let r = value % unit;
    if 2 * r > unit || (2 * r == unit && q % 2 == 1) {
        q + 1
    } else {
        q
    }
}

/// The number with 53 significant bits that is nearest to `bytes`: the
/// precision of a double, to which a size is kept before it is scaled.
/// Below 2^53 every size is such a number.
pub open spec fn in_53_bits(bytes: nat) -> nat {
    rounded_quotient(bytes, spacing(bytes)) * spacing(bytes)
}

/// `bytes` in hundredths of `unit`, rounded to the nearest.
pub open spec fn hundredths(bytes: nat, unit: nat) -> nat {
    rounded_quotient(in_53_bits(bytes) * 100, unit)
}

/// `bytes` in units of `unit`, with two decimals.
pub open spec fn scaled_text(bytes: nat, unit: nat) -> Seq<char> {
    let h = hundredths(bytes, unit);
    decimal_of(h / 100) + seq!['.', digit_char((h % 100) / 10), digit_char(h % 10)]
}

/// A size for people to read: whole bytes below a kibibyte, else in the
/// largest of KB, MB, GB and TB that the size reaches, with two decimals,
/// rounded to the nearest and, of two equally near, to the even one.
pub open spec fn size_text(bytes: u64) -> Seq<char> {
    if bytes >= TB {
        scaled_text(bytes as nat, TB as nat) + " TB"@
    } else if bytes >= GB {
        scaled_text(bytes as nat, GB as nat) + " GB"@
    } else if bytes >= MB {
        scaled_text(bytes as nat, MB as nat) + " MB"@
    } else if bytes >= KB {
        scaled_text(bytes as nat, KB as nat) + " KB"@
    } else {
        decimal_of(bytes as nat) + " B"@
    }
}

/// The spacing of the numbers with 53 significant bits around `bytes`.
fn spacing_of(bytes: u64) -> (r: u128)
    ensures
        r as nat == spacing(bytes as nat),
        1 <= r <= 2048,
{
    if bytes < 0x20_0000_0000_0000 {
        1
    } else if bytes < 0x40_0000_0000_0000 {
        2
    } else if bytes < 0x80_0000_0000_0000 {
        4
    } else if bytes < 0x100_0000_0000_0000 {
        8
    } else if bytes < 0x200_0000_0000_0000 {
        16
    } else if bytes < 0x400_0000_0000_0000 {
        32
    } else if bytes < 0x800_0000_0000_0000 {
        64
    } else if bytes < 0x1000_0000_0000_0000 {
        128
    } else if bytes < 0x2000_0000_0000_0000 {
        256
    } else if bytes < 0x4000_0000_0000_0000 {
        512
    } else if bytes < 0x8000_0000_0000_0000 {
        1024
    } else {
        2048
    }
}

/// `value` in units of `unit`, rounded to the nearest, ties to even.
fn round_quotient(value: u128, unit: u128) -> (r: u128)
    requires
        unit >= 1,
        value <= 0x1000_0000_0000_0000_0000,
    ensures
        r as nat == rounded_quotient(value as nat, unit as nat),
        r <= value + 1,
        unit >= 1024 ==> r <= value / 1024 + 1,
{
    let q = value / unit;
    let r = value % unit;
    proof {
        vstd::arithmetic::div_mod::lemma_fundamental_div_mod(value as int, unit as int);
        vstd::arithmetic::div_mod::lemma_div_pos_is_pos(value as int, unit as int);
        vstd::arithmetic::div_mod::lemma_mod_bound(value as int, unit as int);
        assert(q <= value) by (nonlinear_arith)
            requires
                value == unit * q + r,
                unit >= 1,
                q >= 0,
                r >= 0,
        ;
        if unit >= 1024 {
            assert(q * 1024 <= value) by (nonlinear_arith)
                requires
                    value == unit * q + r,
                    unit >= 1024,
                    q >= 0,
                    r >= 0,
            ;
        }
    }
    if r > unit - r || (r == unit - r && q % 2 == 1) {
        q + 1
    } else {
        q
    }
}

/// Appends `bytes` in units of `unit`, with two decimals.
fn push_scaled(out: &mut String, bytes: u64, unit: u64)
    requires
        unit >= 1024,
    ensures
        final(out)@ == old(out)@ + scaled_text(bytes as nat, unit as nat),
{
    let step = spacing_of(bytes);
    let kept = round_quotient(bytes as u128, step) * step;
    let h = round_quotient(kept * 100, unit as u128);
    let whole = (h / 100) as u64;
    let first = ((h % 100) / 10) as u64;
    let second = (h % 10) as u64;
    let ghost before = out@;
    push_decimal(out, whole);
    out.append(".");
    out.append(digit_text(first));
    out.append(digit_text(second));
    proof {
        reveal_strlit(".");
        assert("."@ =~= seq!['.']);
        assert(out@ =~= before + scaled_text(bytes as nat, unit as nat));
    }
}

/// Format bytes into human-readable size (KB, MB, GB, TB).
pub fn format_size(bytes: u64) -> (r: String)
    ensures
        r@ == size_text(bytes),
{
    let mut out = String::new();
    if bytes >= TB {
        push_scaled(&mut out, bytes, TB);
        out.append(" TB");
    } else if bytes >= GB {
        push_scaled(&mut out, bytes, GB);
        out.append(" GB");
    } else if bytes >= MB {
        push_scaled(&mut out, bytes, MB);
        out.append(" MB");
    } else if bytes >= KB {
        push_scaled(&mut out, bytes, KB);
        out.append(" KB");
    } else {
        push_decimal(&mut out, bytes);
        out.append(" B");
    }
    proof {
        assert(out@ =~= size_text(bytes));
    }
    out
}

/// The temporary names that end in a shorter temporary name.
pub open spec fn ends_in_temp_name(name: Seq<char>) -> bool {
    ||| name == ".parcel-cache"@
    ||| name == ".rollup.cache"@
    ||| name == ".venv"@
    ||| name == "venv"@
    ||| name == ".env"@
    ||| name == ".pytest_cache"@
    ||| name == ".mypy_cache"@
    ||| name == ".build"@
    ||| name == "_build"@
    ||| name == ".cache"@
    ||| name == ".tmp"@
    ||| name == ".temp"@
    ||| name == ".rbenv"@
    ||| name == ".pyenv"@
    ||| name == ".coverage"@
    ||| name == ".sass-cache"@
}

/// The temporary names that begin with a shorter temporary name.
pub open spec fn begins_with_temp_name(name: Seq<char>) -> bool {
    name == ".vscode"@
}

/// The names that end in or begin with a shorter temporary name are
/// temporary names themselves.
pub proof fn lemma_extended_names_are_temporary(name: Seq<char>)
    requires
        ends_in_temp_name(name) || begins_with_temp_name(name),
    ensures
        is_temp_name(name),
{
}

/// Classification is by exact match: a temporary name with something
/// put before it is not temporary, unless the whole is one of the few
/// temporary names that end in a shorter one (as `.cache` ends in
/// `cache`).
pub proof fn lemma_prefixed_name_is_normal(name: Seq<char>, prefix: Seq<char>)
    requires
        is_temp_name(name),
        prefix.len() > 0,
        !ends_in_temp_name(prefix + name),
    ensures
        !is_temp_name(prefix + name),
{
    let whole = prefix + name;
    let k = prefix.len() as int;
    assert(whole.len() == k + name.len());
    assert forall|i: int| 0 <= i < name.len() implies name[i] == whole[k + i] by {}
    reveal_strlit("node_modules");
    reveal_strlit(".npm");
    reveal_strlit(".yarn");
    reveal_strlit(".pnpm-store");
    reveal_strlit(".turbo");
    reveal_strlit(".parcel-cache");
    reveal_strlit(".webpack");
    reveal_strlit(".rollup.cache");
    reveal_strlit(".vite");
    reveal_strlit(".next");
    reveal_strlit(".nuxt");
    reveal_strlit(".output");
    reveal_strlit(".vercel");
    reveal_strlit(".netlify");
    reveal_strlit("bower_components");
    reveal_strlit(".venv");
    reveal_strlit("venv");
    reveal_strlit("env");
    reveal_strlit(".env");
    reveal_strlit("__pycache__");
    reveal_strlit(".pytest_cache");
    reveal_strlit(".mypy_cache");
    reveal_strlit(".tox");
    reveal_strlit(".eggs");
    reveal_strlit("*.egg-info");
    reveal_strlit(".ipynb_checkpoints");
    reveal_strlit("target");
    reveal_strlit(".fingerprint");
    reveal_strlit(".cargo");
    reveal_strlit("dist");
    reveal_strlit("build");
    reveal_strlit("out");
    reveal_strlit(".build");
    reveal_strlit("_build");
    reveal_strlit(".gradle");
    reveal_strlit(".mvn");
    reveal_strlit(".cache");
    reveal_strlit("cache");
    reveal_strlit(".tmp");
    reveal_strlit("tmp");
    reveal_strlit("temp");
    reveal_strlit(".temp");
    reveal_strlit(".nvm");
    reveal_strlit(".rvm");
    reveal_strlit(".rbenv");
    reveal_strlit(".pyenv");
    reveal_strlit(".idea");
    reveal_strlit(".vscode");
    reveal_strlit(".vs");
    reveal_strlit(".eclipse");
    reveal_strlit(".settings");
    reveal_strlit(".DS_Store");
    reveal_strlit("Thumbs.db");
    reveal_strlit(".Trash");
    reveal_strlit("coverage");
    reveal_strlit(".coverage");
    reveal_strlit(".nyc_output");
    reveal_strlit("htmlcov");
    reveal_strlit(".sass-cache");
    reveal_strlit(".docusaurus");
    if is_temp_name(whole) {
        assert(name[name.len() - 1] == whole[whole.len() - 1]);
        assert(name[name.len() - 2] == whole[whole.len() - 2]);
        assert(name[0] == whole[k]);
        assert(false);
    }
}

/// Classification is by exact match: a temporary name with something
/// put after it is not temporary, unless the whole is the one temporary
/// name that begins with a shorter one (`.vscode`, which begins with
/// `.vs`).
pub proof fn lemma_suffixed_name_is_normal(name: Seq<char>, suffix: Seq<char>)
    requires
        is_temp_name(name),
        suffix.len() > 0,
        !begins_with_temp_name(name + suffix),
    ensures
        !is_temp_name(name + suffix),
{
    let whole = name + suffix;
    assert(whole.len() == name.len() + suffix.len());
    assert forall|i: int| 0 <= i < name.len() implies name[i] == whole[i] by {}
    reveal_strlit("node_modules");
    reveal_strlit(".npm");
    reveal_strlit(".yarn");
    reveal_strlit(".pnpm-store");
    reveal_strlit(".turbo");
    reveal_strlit(".parcel-cache");
    reveal_strlit(".webpack");
    reveal_strlit(".rollup.cache");
    reveal_strlit(".vite");
    reveal_strlit(".next");
    reveal_strlit(".nuxt");
    reveal_strlit(".output");
    reveal_strlit(".vercel");
    reveal_strlit(".netlify");
    reveal_strlit("bower_components");
    reveal_strlit(".venv");
    reveal_strlit("venv");
    reveal_strlit("env");
    reveal_strlit(".env");
    reveal_strlit("__pycache__");
    reveal_strlit(".pytest_cache");
    reveal_strlit(".mypy_cache");
    reveal_strlit(".tox");
    reveal_strlit(".eggs");
    reveal_strlit("*.egg-info");
    reveal_strlit(".ipynb_checkpoints");
    reveal_strlit("target");
    reveal_strlit(".fingerprint");
    reveal_strlit(".cargo");
    reveal_strlit("dist");
    reveal_strlit("build");
    reveal_strlit("out");
    reveal_strlit(".build");
    reveal_strlit("_build");
    reveal_strlit(".gradle");
    reveal_strlit(".mvn");
    reveal_strlit(".cache");
    reveal_strlit("cache");
    reveal_strlit(".tmp");
    reveal_strlit("tmp");
    reveal_strlit("temp");
    reveal_strlit(".temp");
    reveal_strlit(".nvm");
    reveal_strlit(".rvm");
    reveal_strlit(".rbenv");
    reveal_strlit(".pyenv");
    reveal_strlit(".idea");
    reveal_strlit(".vscode");
    reveal_strlit(".vs");
    reveal_strlit(".eclipse");
    reveal_strlit(".settings");
    reveal_strlit(".DS_Store");
    reveal_strlit("Thumbs.db");
    reveal_strlit(".Trash");
    reveal_strlit("coverage");
    reveal_strlit(".coverage");
    reveal_strlit(".nyc_output");
    reveal_strlit("htmlcov");
    reveal_strlit(".sass-cache");
    reveal_strlit(".docusaurus");
    if is_temp_name(whole) {
        assert(name[0] == whole[0]);
        assert(name[1] == whole[1]);
        assert(name[name.len() - 1] == whole[name.len() - 1]);
        assert(false);
    }
}

} // verus!
