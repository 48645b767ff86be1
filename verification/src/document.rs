//! Assembling ordered rendered blocks into the output document: a fixed
//! preamble, one code-block wrapper per block, and a page-break directive
//! strictly between consecutive blocks — never before the first or after the
//! last.

use crate::block::{spec_block, BlockView, InputItem, RenderedBlock};
use crate::block::build_block;
use vstd::prelude::*;
use vstd::string::StringExecFns;

verus! {

/// The fixed document preamble: page geometry, monospace raw-text font,
/// paragraph leading, and the code-block wrapper that renders the optional
/// line numbers.
pub const PREAMBLE: &'static str = "#set page(width: 210mm, height: 297mm, margin: 2cm)\n#show raw: set text(font: \"Unifont\", size: 8pt)\n#show raw: set par(leading: 0.46em)\n\n#let codeblock(code, lineNum) = {\n  if lineNum {\n    show raw.line: it => {\n      box(\n        stack(\n          dir: ltr,\n          box(\n            width: 0em,\n            align(right, \n              text(fill: gray)[\n                #if it.number >= 3 { (it.number - 2) } else { \"\" }\n              ]\n            )\n          ),\n          h(1em),\n          it.body,\n        ),\n      )\n    }\n    code\n  }\n  else{code}\n}\n";

pub open spec fn preamble() -> Seq<char> {
    PREAMBLE@
}

/// The page-break directive emitted between consecutive blocks.
pub open spec fn pagebreak_text() -> Seq<char> {
    "#pagebreak()\n"@
}

pub open spec fn bool_text(b: bool) -> Seq<char> {
    if b {
        "true"@
    } else {
        "false"@
    }
}

/// One block's wrapper: the code-fence open delimiter, the body, the close
/// delimiter with the line-numbering flag, and a trailing blank line.
pub open spec fn spec_wrap(b: BlockView) -> Seq<char> {
    "#codeblock(````\n"@ + b.body + "\n````, "@ + bool_text(b.numbered) + ")\n\n"@
}

/// The views of a sequence of rendered blocks.
pub open spec fn views_of(blocks: Seq<RenderedBlock>) -> Seq<BlockView> {
    blocks.map_values(|b: RenderedBlock| b@)
}

/// The text after the preamble: the wrappers in order, joined by page breaks.
pub open spec fn blocks_doc(blocks: Seq<BlockView>) -> Seq<char>
    decreases blocks.len(),
{
    if blocks.len() == 0 {
        Seq::empty()
    } else if blocks.len() == 1 {
        spec_wrap(blocks[0])
    } else {
        blocks_doc(blocks.drop_last()) + pagebreak_text() + spec_wrap(blocks.last())
    }
}

/// The whole document for an ordered sequence of blocks.
pub open spec fn spec_document(blocks: Seq<BlockView>) -> Seq<char> {
    preamble() + blocks_doc(blocks)
}

fn append_wrap(r: &mut String, b: &RenderedBlock)
    ensures
        final (r)@ == old(r)@ + spec_wrap((*b)@),
{
    r.append("#codeblock(````\n");
    r.append(b.body.as_str());
    r.append("\n````, ");
    if b.numbered {
        r.append("true");
    } else {
        r.append("false");
    }
    r.append(")\n\n");
    proof {
        assert(r@ =~= old(r)@ + spec_wrap((*b)@));
    }
}

/// Assembles the ordered blocks into the document text.
pub fn assemble(blocks: &Vec<RenderedBlock>) -> (r: String)
    ensures
        r@ == spec_document(views_of(blocks@)),
{
    let mut r = String::from_str(PREAMBLE);
    let mut i: usize = 0;
    while i < blocks.len()
        invariant
            0 <= i <= blocks@.len(),
            r@ == preamble() + blocks_doc(views_of(blocks@.take(i as int))),
        decreases blocks@.len() - i,
    {
        if i > 0 {
            r.append("#pagebreak()\n");
        }
        append_wrap(&mut r, &blocks[i]);
        proof {
            let t = views_of(blocks@.take(i as int + 1));
            assert(t.drop_last() =~= views_of(blocks@.take(i as int)));
            assert(t.last() == blocks@[i as int]@);
            assert(r@ =~= preamble() + blocks_doc(t));
        }
        i += 1;
    }
    proof {
        assert(blocks@.take(blocks@.len() as int) =~= blocks@);
    }
    r
}

/// The blocks that an ordered sequence of inputs renders to.
pub open spec fn spec_blocks(items: Seq<InputItem>, numbering: bool) -> Seq<BlockView> {
    items.map_values(|it: InputItem| spec_block(it.display_name@, it.payload@, numbering))
}

/// The whole pipeline over ordered inputs: classify and render each payload,
/// build its block, and assemble the document.
pub fn render_document(items: &Vec<InputItem>, numbering: bool) -> (r: String)
    ensures
        r@ == spec_document(spec_blocks(items@, numbering)),
{
    let mut blocks: Vec<RenderedBlock> = Vec::new();
    let mut i: usize = 0;
    while i < items.len()
        invariant
            0 <= i <= items@.len(),
            views_of(blocks@) == spec_blocks(items@.take(i as int), numbering),
        decreases items@.len() - i,
    {
        let b = build_block(&items[i], numbering);
        let ghost pre_blocks = blocks@;
        let ghost bv = b@;
        blocks.push(b);
        proof {
            assert(views_of(blocks@) =~= views_of(pre_blocks).push(bv));
            assert(spec_blocks(items@.take(i as int + 1), numbering) =~= spec_blocks(
                items@.take(i as int),
                numbering,
            ).push(bv));
        }
        i += 1;
    }
    proof {
        assert(items@.take(items@.len() as int) =~= items@);
    }
    assemble(&blocks)
}

/// The document as a list of segments: the preamble, then the block wrappers
/// in order with one page-break segment between each adjacent pair.
pub open spec fn document_segments(blocks: Seq<BlockView>) -> Seq<Seq<char>>
    decreases blocks.len(),
{
    if blocks.len() == 0 {
        seq![preamble()]
    } else if blocks.len() == 1 {
        seq![preamble(), spec_wrap(blocks[0])]
    } else {
        document_segments(blocks.drop_last()) + seq![
            pagebreak_text(),
            spec_wrap(blocks.last()),
        ]
    }
}

/// How many segments equal the page-break directive.
pub open spec fn count_pagebreak_segments(segs: Seq<Seq<char>>) -> int
    decreases segs.len(),
{
    if segs.len() == 0 {
        0int
    } else {
        count_pagebreak_segments(segs.drop_last()) + if segs.last() == pagebreak_text() {
            1int
        } else {
            0int
        }
    }
}

proof fn lemma_wrap_not_pagebreak(b: BlockView)
    ensures
        spec_wrap(b) != pagebreak_text(),
{
    reveal_strlit("#pagebreak()\n");
    reveal_strlit("#codeblock(````\n");
    reveal_strlit("\n````, ");
    reveal_strlit("true");
    reveal_strlit("false");
    reveal_strlit(")\n\n");
    assert(spec_wrap(b).len() >= 30);
    assert(pagebreak_text().len() == 13);
}

proof fn lemma_segments_structure(blocks: Seq<BlockView>)
    ensures
        document_segments(blocks).len() == 1 + if blocks.len() == 0 {
            0int
        } else {
            2 * blocks.len() - 1
        },
        document_segments(blocks)[0] == preamble(),
        forall|i: int|
            0 <= i < blocks.len() ==> document_segments(blocks)[2 * i + 1] == spec_wrap(
                #[trigger] blocks[i],
            ),
        forall|j: int|
            2 <= j < document_segments(blocks).len() && j % 2 == 0 ==> #[trigger] document_segments(
                blocks,
            )[j] == pagebreak_text(),
        spec_document(blocks) == document_segments(blocks).flatten(),
    decreases blocks.len(),
{
    broadcast use Seq::lemma_flatten_push;

    let segs = document_segments(blocks);
    if blocks.len() == 0 {
        assert(segs.flatten() =~= preamble() + blocks_doc(blocks)) by {
            assert(segs =~= Seq::empty().push(preamble()));
            assert(Seq::<Seq<char>>::empty().flatten() =~= Seq::<char>::empty());
        }
    } else if blocks.len() == 1 {
        assert(segs.flatten() =~= preamble() + blocks_doc(blocks)) by {
            assert(segs =~= Seq::empty().push(preamble()).push(spec_wrap(blocks[0])));
            assert(Seq::<Seq<char>>::empty().flatten() =~= Seq::<char>::empty());
        }
    } else {
        let pre = blocks.drop_last();
        lemma_segments_structure(pre);
        let psegs = document_segments(pre);
        assert(segs =~= psegs.push(pagebreak_text()).push(spec_wrap(blocks.last())));
        assert(forall|i: int|
            0 <= i < blocks.len() ==> segs[2 * i + 1] == spec_wrap(blocks[i])) by {
            assert(forall|i: int| 0 <= i < pre.len() ==> blocks[i] == pre[i]);
        }
        assert(segs.flatten() =~= preamble() + blocks_doc(blocks));
    }
}

/// Page-break placement: for N blocks the document flattens the segment list
/// [preamble, wrap(0), pb, wrap(1), pb, ..., wrap(N-1)] — exactly N-1
/// page-break directives, one between each adjacent pair of block wrappers,
/// none before the first block, after the last, or anywhere else.
pub proof fn lemma_page_break_placement(blocks: Seq<BlockView>)
    ensures
        spec_document(blocks) == document_segments(blocks).flatten(),
        document_segments(blocks).len() == 1 + if blocks.len() == 0 {
            0int
        } else {
            2 * blocks.len() - 1
        },
        document_segments(blocks)[0] == preamble(),
        forall|i: int|
            0 <= i < blocks.len() ==> document_segments(blocks)[2 * i + 1] == spec_wrap(
                #[trigger] blocks[i],
            ),
        forall|j: int|
            0 <= j < document_segments(blocks).len() ==> (#[trigger] document_segments(blocks)[j]
                == pagebreak_text() <==> (j >= 2 && j % 2 == 0)),
        count_pagebreak_segments(document_segments(blocks)) == if blocks.len() == 0 {
            0int
        } else {
            blocks.len() - 1
        },
    decreases blocks.len(),
{
    lemma_segments_structure(blocks);
    let segs = document_segments(blocks);
    assert(preamble() != pagebreak_text()) by {
        reveal_strlit("#pagebreak()\n");
        assert(PREAMBLE@.len() != 13) by {
            reveal_strlit(
                "#set page(width: 210mm, height: 297mm, margin: 2cm)\n#show raw: set text(font: \"Unifont\", size: 8pt)\n#show raw: set par(leading: 0.46em)\n\n#let codeblock(code, lineNum) = {\n  if lineNum {\n    show raw.line: it => {\n      box(\n        stack(\n          dir: ltr,\n          box(\n            width: 0em,\n            align(right, \n              text(fill: gray)[\n                #if it.number >= 3 { (it.number - 2) } else { \"\" }\n              ]\n            )\n          ),\n          h(1em),\n          it.body,\n        ),\n      )\n    }\n    code\n  }\n  else{code}\n}\n",
            );
        }
    }
    if blocks.len() == 0 {
        let s0 = segs.drop_last();
        assert(s0 =~= Seq::<Seq<char>>::empty());
        assert(count_pagebreak_segments(s0) == 0);
        assert(count_pagebreak_segments(segs) == 0);
    } else if blocks.len() == 1 {
        lemma_wrap_not_pagebreak(blocks[0]);
        let s1 = segs.drop_last();
        assert(s1 =~= seq![preamble()]);
        let s0 = s1.drop_last();
        assert(s0 =~= Seq::<Seq<char>>::empty());
        assert(count_pagebreak_segments(s0) == 0);
        assert(count_pagebreak_segments(s1) == 0);
        assert(count_pagebreak_segments(segs) == 0);
    } else {
        let pre = blocks.drop_last();
        lemma_page_break_placement(pre);
        lemma_wrap_not_pagebreak(blocks.last());
        let psegs = document_segments(pre);
        assert(segs =~= psegs.push(pagebreak_text()).push(spec_wrap(blocks.last())));
        let s1 = segs.drop_last();
        assert(s1 =~= psegs.push(pagebreak_text()));
        assert(s1.drop_last() =~= psegs);
        assert(count_pagebreak_segments(s1) == count_pagebreak_segments(psegs) + 1);
        assert(count_pagebreak_segments(segs) == count_pagebreak_segments(psegs) + 1);
    }
}

} // verus!
