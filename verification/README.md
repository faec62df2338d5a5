# tit

A keyboard-first developer toolbox for the terminal: Base64, URL and HTML
encoding, hashes, JWT decoding and HMAC verification, JSON/YAML formatting,
text case and statistics, number bases, colors, cron expressions, IPv4
subnets, URL parsing, regular expressions and MAC addresses.

The conversion and validation logic lives in `src/` and is verified with
Verus: each public function states what it returns in its `ensures`, and the
laws that tie functions together (round trips of Base64, percent-encoding,
radix text and HEX colors; the notations of one color read alike; a signed
JWT verifies and a wrong secret does not; subnet host counts; underscores
and padding do not change a number conversion) are proof functions. The
cron run-time search takes the current time as an argument, so its result
is stated exactly for every time. Calls into outside crates (`base64`, `hmac`, `sha2`, `md5`,
`serde_json`, `serde_yaml`, `regex`, `url`, `urlencoding`, `ipnet`,
`chrono`, `rand`, `html-escape`) go through small trusted wrappers whose
contracts say what the crate documents.

`app/` is the program around the library: the command line (`clap`), the
terminal interface (`ratatui`, `crossterm`, `tui-textarea`), the clipboard
and standard input and output.

`tests/` runs the library on concrete inputs.
