//! The compile stage of the interpreter pipeline. Today it only
//! tokenizes: it scans the source and renders one trace line per
//! token, up to and including the end-of-file sentinel; emitting a
//! chunk is the designated extension point for a future parser.

use vstd::prelude::*;
use vstd::string::StringExecFns;
use crate::scanner;
use crate::scanner::Scanner;
use crate::scanner::TokenType;
use crate::text;

verus! {

/// One line of the token trace: the token's source line (or a
/// continuation marker when it repeats the previous token's), its
/// two-digit kind code, and its lexeme in quotes.
pub open spec fn token_entry(kind: TokenType, txt: Seq<char>, line: int, prev: int) -> Seq<char> {
    (if line != prev {
        text::pad4_text(line as nat) + seq![' ']
    } else {
        "   | "@
    }) + text::pad2_text(scanner::type_code(kind) as nat) + " '"@ + txt + "'\n"@
}

/// The whole token trace of a source text from a scanner state: one
/// entry per token through the end-of-file sentinel.
pub open spec fn token_trace(src: Seq<char>, pos: int, line: int, prev: int) -> Seq<char>
    decreases src.len() - pos,
        via token_trace_dec
{
    if pos < 0 {
        Seq::empty()
    } else {
        let st = scanner::spec_scan(src, pos, line);
        let entry = token_entry(st.kind, st.text, st.line, prev);
        if st.kind == TokenType::EoF {
            entry
        } else {
            entry + token_trace(src, st.end, st.line, st.line)
        }
    }
}

#[via_fn]
proof fn token_trace_dec(src: Seq<char>, pos: int, line: int, prev: int) {
    if pos >= 0 {
        scanner::lemma_scan_bounds(src, pos, line);
    }
}

/// Scans a source text and renders the token trace, one line per
/// token up to and including the end-of-file sentinel.
#[verifier::rlimit(100)]
pub fn compile(source: &String) -> (trace: String)
    requires
        source@.len() + 1 <= i32::MAX,
    ensures
        trace@ == token_trace(source@, 0, 1, -1),
{
    let mut scanner = Scanner::new(source);
    let mut line: i32 = -1;
    let mut trace = String::new();
    proof {
        assert(trace@ + token_trace(source@, 0, 1, -1) =~= token_trace(source@, 0, 1, -1));
    }
    loop
        invariant
            scanner.wf(),
            scanner.src() == source@,
            scanner.pos() >= 0,
            trace@ + token_trace(source@, scanner.pos(), scanner.line_no(), line as int)
                == token_trace(source@, 0, 1, -1),
        decreases source@.len() - scanner.pos(),
    {
        let ghost pos0 = scanner.pos();
        let ghost line0 = scanner.line_no();
        let ghost prev0 = line as int;
        let ghost tr0 = trace@;
        let token = scanner.scan_token();
        if token.line != line {
            proof {
                scanner::lemma_scanner_wf(&scanner);
                assert(token.line >= 1);
            }
            text::push_pad4(&mut trace, token.line as usize);
            trace.push(' ');
            line = token.line;
        } else {
            trace.append("   | ");
        }
        text::push_pad2(&mut trace, scanner::token_type_code(token.type_));
        trace.append(" '");
        text::push_string(&mut trace, &token.string);
        trace.append("'\n");
        proof {
            scanner::lemma_scanner_wf(&scanner);
            let st = scanner::spec_scan(source@, pos0, line0);
            assert(trace@ =~= tr0 + token_entry(st.kind, st.text, st.line, prev0));
            if st.kind != TokenType::EoF {
                assert(trace@ + token_trace(source@, st.end, st.line, st.line) =~= token_trace(
                    source@,
                    0,
                    1,
                    -1,
                ));
            }
        }
        if token.type_ == TokenType::EoF {
            return trace;
        }
    }
}

} // verus!
