use regex::bytes::Regex;
use wslgit::to_host::translate_path_to_win;

fn by_regex(text: &[u8]) -> Vec<u8> {
    let re = Regex::new(r"(?m-u)/mnt/(?P<drive>[A-Za-z])(?P<path>/\S*)").unwrap();
    re.replace_all(text, &b"${drive}:${path}"[..]).into_owned()
}

#[test]
fn scanner_agrees_with_the_pattern() {
    let samples: [&[u8]; 12] = [
        b"/mnt/d/some path/a file.md",
        b"origin  /mnt/c/path/ (fetch)",
        b"mirror  /mnt/c/other/ (fetch)\nmirror  /mnt/c/other/ (push)\n",
        b"/mnt/other/file.sh",
        b"/mnt/c",
        b"/mnt/c/",
        b"x/mnt/c/y/mnt/d/z w/mnt/e/f",
        b"/mnt//mnt/c/a",
        b"/mnt/c/a\x0b/mnt/d/b\r\n/mnt/E/\x0c",
        b"\xff\xfe/mnt/q/\x80\x81 /mnt/1/x",
        b"",
        b"/mnt/ab/c /mn/c/d /mnt/c\\d",
    ];
    for s in samples.iter() {
        assert_eq!(translate_path_to_win(s), by_regex(s), "{:?}", s);
    }
}
