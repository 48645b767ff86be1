//! Synthetic inputs: the single items that stand for a captured command run
//! or for piped standard input. File-tree items are built by the caller from
//! the file's forward-slash relative path and its raw bytes.

use crate::block::InputItem;
use vstd::prelude::*;
use vstd::slice::slice_to_vec;
use vstd::string::StringExecFns;
use vstd::utf8::encode_utf8;

verus! {

/// The arguments of a command line joined by single spaces.
pub open spec fn spec_join_spaced(args: Seq<Seq<char>>) -> Seq<char>
    decreases args.len(),
{
    if args.len() == 0 {
        Seq::empty()
    } else if args.len() == 1 {
        args[0]
    } else {
        spec_join_spaced(args.drop_last()) + seq![' '] + args.last()
    }
}

/// Joins command arguments into the displayed command line.
pub fn join_spaced(args: &Vec<String>) -> (r: String)
    ensures
        r@ == spec_join_spaced(args@.map_values(|s: String| s@)),
{
    let mut r = String::new();
    let mut i: usize = 0;
    while i < args.len()
        invariant
            0 <= i <= args@.len(),
            r@ == spec_join_spaced(args@.take(i as int).map_values(|s: String| s@)),
        decreases args@.len() - i,
    {
        if i > 0 {
            r.append(" ");
        }
        r.append(args[i].as_str());
        proof {
            reveal_strlit(" ");
            let t = args@.take(i as int + 1).map_values(|s: String| s@);
            assert(t.drop_last() =~= args@.take(i as int).map_values(|s: String| s@));
            assert(t.last() == args@[i as int]@);
            assert(r@ =~= spec_join_spaced(t));
        }
        i += 1;
    }
    proof {
        assert(args@.take(args@.len() as int) =~= args@);
    }
    r
}

/// A synthetic item's payload decodes back to exactly the text it was built
/// from: the encoded bytes are a valid encoding of the original characters.
/// So a command or stdin block whose text classifies as text renders that
/// text itself, never a lossy variant of it.
pub proof fn lemma_synthetic_payload_decodes(text: Seq<char>)
    ensures
        vstd::utf8::valid_utf8(encode_utf8(text)),
        vstd::utf8::decode_utf8(encode_utf8(text)) == text,
{
    vstd::utf8::encode_utf8_valid_utf8(text);
    vstd::utf8::encode_utf8_decode_utf8(text);
}

/// The input standing for a captured command run: named by the command line
/// behind a shell prompt marker, its payload the captured standard output,
/// a newline, and the captured standard error.
pub fn command_item(cmd_line: &str, stdout: &str, stderr: &str) -> (r: InputItem)
    ensures
        r.display_name@ == "$ "@ + cmd_line@,
        r.payload@ == encode_utf8(stdout@ + seq!['\n'] + stderr@),
{
    let mut name = String::from_str("$ ");
    name.append(cmd_line);
    let mut text = String::from_str(stdout);
    text.append("\n");
    text.append(stderr);
    proof {
        reveal_strlit("\n");
        assert(text@ =~= stdout@ + seq!['\n'] + stderr@);
    }
    let payload = slice_to_vec(text.as_str().as_bytes());
    InputItem { display_name: name, payload }
}

/// The input standing for piped standard input.
pub fn stdin_item(content: &str) -> (r: InputItem)
    ensures
        r.display_name@ == "stdin (piped)"@,
        r.payload@ == encode_utf8(content@),
{
    let name = String::from_str("stdin (piped)");
    let payload = slice_to_vec(content.as_bytes());
    InputItem { display_name: name, payload }
}

} // verus!
