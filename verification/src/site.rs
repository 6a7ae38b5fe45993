//! Helpers for the site shell around the renderer: the live-reload
//! script snippet and the split of an article file into metadata text and
//! body.

use vstd::prelude::*;
use crate::strutil::dec_digits;

verus! {

/// The live-reload script for a given websocket port.
pub open spec fn refresh_script(port: nat) -> Seq<char> {
    "\n        <script>\n            let ws = new WebSocket(\"ws://localhost:"@ + dec_digits(port) + "\");\n            ws.onopen = function(_) {\n                console.log(\"WS started\");\n            };\n\n            ws.onmessage = function(_) {\n                console.log(\"REFRESH\");\n                document.location.reload()\n            };\n\n            ws.onerror = function(error) {\n                console.log(`[error] WS error: ${error.message}`);\n            };\n        </script>\n        "@
}

/// The script block a debug build embeds in every page, listening on the
/// refresh websocket port; an ordinary build embeds nothing.
pub fn refresh(debug: bool, port: u16) -> (r: String)
    ensures
        debug ==> r@ == refresh_script(port as nat),
        !debug ==> r@ == Seq::<char>::empty(),
{
    if debug {
        let mut s = String::from_str(
            "\n        <script>\n            let ws = new WebSocket(\"ws://localhost:",
        );
        crate::strutil::append_decimal(&mut s, port as u64);
        s.append(
            "\");\n            ws.onopen = function(_) {\n                console.log(\"WS started\");\n            };\n\n            ws.onmessage = function(_) {\n                console.log(\"REFRESH\");\n                document.location.reload()\n            };\n\n            ws.onerror = function(error) {\n                console.log(`[error] WS error: ${error.message}`);\n            };\n        </script>\n        ",
        );
        s
    } else {
        String::new()
    }
}

/// The metadata/body separator of an article file.
pub open spec fn separator() -> Seq<char> {
    "/~"@
}

/// Splits an article file at the first metadata separator: the text
/// before it and the text after it. `None` when the file has no
/// separator.
pub fn split_article(s: &str) -> (r: Option<(String, String)>)
    ensures
        match r {
            Option::Some(parts) => exists|i: int|
                0 <= i && i + 2 <= s@.len() && #[trigger] s@.subrange(i, i + 2) == separator()
                    && parts.0@ == s@.take(i) && parts.1@ == s@.skip(i + 2) && (forall|j: int|
                    0 <= j < i ==> #[trigger] s@.subrange(j, j + 2) != separator()),
            Option::None => forall|j: int|
                0 <= j && j + 2 <= s@.len() ==> #[trigger] s@.subrange(j, j + 2) != separator(),
        },
{
    let n = s.unicode_len();
    if n < 2 {
        proof {
            reveal_strlit("/~");
        }
        return Option::None;
    }
    let mut i: usize = 0;
    while i <= n - 2
        invariant
            2 <= n,
            i <= n - 1,
            n == s@.len(),
            forall|j: int| 0 <= j < i ==> #[trigger] s@.subrange(j, j + 2) != separator(),
        decreases n - i,
    {
        proof {
            reveal_strlit("/~");
        }
        if s.get_char(i) == '/' && s.get_char(i + 1) == '~' {
            let head = String::from_str(s.substring_char(0, i));
            let tail = String::from_str(s.substring_char(i + 2, n));
            proof {
                assert(s@.subrange(i as int, i + 2) =~= separator());
                assert(head@ =~= s@.take(i as int));
                assert(tail@ =~= s@.skip(i + 2));
            }
            return Option::Some((head, tail));
        }
        proof {
            assert(s@.subrange(i as int, i + 2) != separator()) by {
                assert(s@.subrange(i as int, i + 2)[0] == s@[i as int]);
                assert(separator()[0] == '/' && separator()[1] == '~') by {
                    reveal_strlit("/~");
                }
                if s@.subrange(i as int, i + 2) == separator() {
                    assert(s@[i as int] == '/' && s@[i + 1] == '~');
                }
            }
        }
        i = i + 1;
    }
    proof {
        assert forall|j: int| 0 <= j && j + 2 <= s@.len() implies #[trigger] s@.subrange(j, j + 2)
            != separator() by {
            assert(j < i);
        }
    }
    Option::None
}

} // verus!
