use jtools::listing::filter_hidden;
use jtools::listing::format_long_listing;
use jtools::listing::mode_string;
use jtools::listing::size_magnitude;
use jtools::listing::size_suffix;

fn strs(names: &[&str]) -> Vec<String> {
    names.iter().map(|n| n.to_string()).collect()
}

#[test]
fn mode_string_spells_the_bits() {
    assert_eq!(mode_string(0o755, true), "drwxr-xr-x");
    assert_eq!(mode_string(0o644, false), "-rw-r--r--");
    assert_eq!(mode_string(0o000, false), "----------");
    assert_eq!(mode_string(0o777, false), "-rwxrwxrwx");
}

#[test]
fn size_magnitude_is_the_1024_logarithm() {
    assert_eq!(size_magnitude(1), 0);
    assert_eq!(size_magnitude(1023), 0);
    assert_eq!(size_magnitude(1024), 1);
    assert_eq!(size_magnitude(1024 * 1024 - 1), 1);
    assert_eq!(size_magnitude(1024 * 1024), 2);
    assert_eq!(size_magnitude(u64::MAX), 6);
}

#[test]
fn size_suffixes() {
    assert_eq!(size_suffix(0), "");
    assert_eq!(size_suffix(1), "K");
    assert_eq!(size_suffix(2), "M");
    assert_eq!(size_suffix(3), "G");
    assert_eq!(size_suffix(4), "T");
    assert_eq!(size_suffix(5), "P");
}

#[test]
fn hidden_names_are_dropped_unless_all() {
    let names = strs(&[".git", "src", ".gitignore", "Cargo.toml"]);
    assert_eq!(filter_hidden(&names, false), strs(&["src", "Cargo.toml"]));
    assert_eq!(filter_hidden(&names, true), names);
}

#[test]
fn long_listing_aligns_its_columns() {
    let out = format_long_listing(
        &strs(&["drwxr-xr-x", "-rw-r--r--"]),
        &strs(&["12", "1"]),
        &strs(&["root", "me"]),
        &strs(&["wheel", "staff"]),
        &strs(&["4096", "73"]),
        &strs(&["Jan  1 00:00", "Feb  2 12:34"]),
        &strs(&["src", "notes.txt"]),
    );
    let expected = "drwxr-xr-x 12 root wheel 4096 Jan  1 00:00 src\n\
                    -rw-r--r--  1 me   staff   73 Feb  2 12:34 notes.txt";
    assert_eq!(out, expected);
}

#[test]
fn long_listing_of_nothing_is_empty() {
    let none: Vec<String> = Vec::new();
    let out = format_long_listing(&none, &none, &none, &none, &none, &none, &none);
    assert_eq!(out, "");
}
