# rayhunter: Samsung Shannon modem support

Diagnostic messages of the Samsung Shannon modems in Google Pixel 6 and later:
reading them off the modem, logging them, converting them to GSMTAP, and
installing the logger on a device.

The library in `src/` is written in Verus. It does no input or output; every
function states what it returns, and Verus proves it.

| module | what it is |
| --- | --- |
| `shannon` | the SIPC wire format: headers, frames, DM messages |
| `smdl` | SMDL log files: an encoder, and a decoder that is fed bytes |
| `sdm_parser` | the modem's native SDM files, and statistics over them |
| `gsmtap`, `shannon_gsmtap_parser` | conversion of DM messages to GSMTAP |
| `shannon_device` | which device paths to try, when to retry, what to do with a read |
| `android` | the installation as a plan of steps, and the checks on each step |
| `text`, `little_endian`, `digest` | strings, numbers and digests |

Laws that span several functions are the public proof functions whose names
begin with `law_`. What is taken on trust of `std`, `chrono` and `md5` stands in
the functions marked `external_body`, each with a comment that says what is
claimed.

`app/` holds the I/O around the library: asynchronous files and devices, USB, and
the types that carry the derives of other crates. `tests/` runs the library.
