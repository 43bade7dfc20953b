//! What an agent's reply is made of.

use vstd::prelude::*;

use crate::agentio::{block_texts, record_texts, records, reply_text, turn_texts};
use crate::json::{json_read, JsonV};
use crate::text::{is_blank, is_white, occurs, trim, trim_end};
use crate::text_laws::{law_joining_adds_up, law_joining_keeps_the_parts};

verus! {

// ---- blocks -------------------------------------------------------------------------

/// Blocks are read one after the other, and each by itself.
pub proof fn law_blocks_are_read_in_order(a: Seq<JsonV>, b: Seq<JsonV>)
    ensures
        block_texts(a + b) == block_texts(a) + block_texts(b),
    decreases b.len(),
{
    if b.len() > 0 {
        law_blocks_are_read_in_order(a, b.drop_last());
        assert((a + b).drop_last() =~= a + b.drop_last());
        assert(block_texts(a + b) =~= block_texts(a) + block_texts(b));
    } else {
        assert(a + b =~= a);
        assert(block_texts(a) + block_texts(b) =~= block_texts(a));
    }
}

/// A block of text gives its whole text, however many lines that has, but for the
/// whitespace at its end. A blank one, and any other block, such as a thought or
/// the use of a tool, gives nothing.
pub proof fn law_a_block_gives_its_whole_text(block: JsonV, text: Seq<char>, tail: Seq<char>)
    requires
        is_blank(tail),
    ensures
        block.text_at("type"@) != Some("text"@) ==> block_texts(seq![block]).len() == 0,
        block.text_at("text"@) is None ==> block_texts(seq![block]).len() == 0,
        block.text_at("text"@) == Some(tail) ==> block_texts(seq![block]).len() == 0,
        (block.text_at("type"@) == Some("text"@) && block.text_at("text"@) == Some(text + tail)
            && text.len() > 0 && !is_white(text.last())) ==> block_texts(seq![block]) == seq![text],
{
    let one = seq![block];
    assert(one.drop_last() =~= Seq::<JsonV>::empty());
    assert(one.last() == block);
    reveal_with_fuel(block_texts, 2);
    if text.len() > 0 && !is_white(text.last()) {
        lemma_end_comes_off(text, tail);
        let all = text + tail;
        assert(!is_white(all[text.len() - 1]));
        if block.text_at("type"@) == Some("text"@) && block.text_at("text"@) == Some(all) {
            assert(block_texts(one) =~= seq![text]);
        }
    }
}

proof fn lemma_end_comes_off(text: Seq<char>, tail: Seq<char>)
    requires
        is_blank(tail),
        text.len() > 0,
        !is_white(text.last()),
    ensures
        trim_end(text + tail) == text,
    decreases tail.len(),
{
    let all = text + tail;
    if tail.len() > 0 {
        let init = tail.drop_last();
        assert(is_white(tail[tail.len() - 1]));
        assert forall|i: int| 0 <= i < init.len() implies is_white(#[trigger] init[i]) by {
            assert(is_white(tail[i]));
        }
        lemma_end_comes_off(text, init);
        assert(all.drop_last() =~= text + init);
    } else {
        assert(all =~= text);
    }
}

// ---- records ------------------------------------------------------------------------

/// Whether a record is a question of the user's: not a background agent's, and not
/// the result of a tool.
pub open spec fn is_question(v: JsonV) -> bool {
    &&& v.get("isSidechain"@) != Some(JsonV::Bool(true))
    &&& v.text_at("type"@) == Some("user"@)
    &&& v.get("toolUseResult"@) is None
}

/// Whether a record is part of the answer.
pub open spec fn is_answer(v: JsonV) -> bool {
    &&& v.get("isSidechain"@) != Some(JsonV::Bool(true))
    &&& v.text_at("type"@) == Some("assistant"@)
}

pub open spec fn no_question(recs: Seq<JsonV>) -> bool {
    forall|i: int| 0 <= i < recs.len() ==> !is_question(#[trigger] recs[i])
}

/// Nothing before the question counts, and the reply is what follows it.
pub proof fn law_the_reply_follows_the_question(before: Seq<JsonV>, question: JsonV, after: Seq<JsonV>)
    requires
        forall|i: int|
            0 <= i < before.len() ==> (#[trigger] before[i]).get("isSidechain"@) == Some(
                JsonV::Bool(true),
            ) || before[i].text_at("type"@) != Some("user"@),
        question.get("isSidechain"@) != Some(JsonV::Bool(true)),
        question.text_at("type"@) == Some("user"@),
    ensures
        turn_texts(before.push(question) + after, false) == turn_texts(after, true),
        turn_texts(before, false).len() == 0,
    decreases before.len(),
{
    reveal_strlit("user");
    reveal_strlit("assistant");
    let all = before.push(question) + after;
    if before.len() == 0 {
        assert(all[0] == question);
        assert(all.skip(1) =~= after);
    } else {
        let rest = before.skip(1);
        assert(all[0] == before[0]);
        assert(all.skip(1) =~= rest.push(question) + after);
        assert forall|i: int| 0 <= i < rest.len() implies (#[trigger] rest[i]).get("isSidechain"@)
            == Some(JsonV::Bool(true)) || rest[i].text_at("type"@) != Some("user"@) by {
            assert(rest[i] == before[i + 1]);
        }
        law_the_reply_follows_the_question(rest, question, after);
    }
}

/// Until the next question, the records of the answer add up in order, and every
/// other record, such as the result of a tool, adds nothing.
pub proof fn law_the_answer_adds_up(a: Seq<JsonV>, b: Seq<JsonV>)
    requires
        no_question(a),
    ensures
        turn_texts(a + b, true) == turn_texts(a, true) + turn_texts(b, true),
        forall|v: JsonV|
            !is_question(v) ==> #[trigger] turn_texts(seq![v], true) == if is_answer(v) {
                record_texts(v)
            } else {
                Seq::empty()
            },
    decreases a.len(),
{
    reveal_strlit("user");
    reveal_strlit("assistant");
    assert("user"@.len() != "assistant"@.len());
    assert forall|v: JsonV| !is_question(v) implies #[trigger] turn_texts(seq![v], true) == if is_answer(v) {
        record_texts(v)
    } else {
        Seq::<Seq<char>>::empty()
    } by {
        reveal_with_fuel(turn_texts, 2);
        assert(seq![v].skip(1) =~= Seq::<JsonV>::empty());
        assert(record_texts(v) + Seq::<Seq<char>>::empty() =~= record_texts(v));
    }
    let all = a + b;
    if a.len() == 0 {
        assert(all =~= b);
        assert(turn_texts(a, true) + turn_texts(b, true) =~= turn_texts(b, true));
    } else {
        let rest = a.skip(1);
        assert(!is_question(a[0]));
        assert forall|i: int| 0 <= i < rest.len() implies !is_question(#[trigger] rest[i]) by {
            assert(rest[i] == a[i + 1]);
        }
        law_the_answer_adds_up(rest, b);
        assert(all[0] == a[0]);
        assert(all.skip(1) =~= rest + b);
        assert(turn_texts(all, true) =~= turn_texts(a, true) + turn_texts(b, true));
    }
}

/// A record of the answer gives the texts of its blocks; one without blocks gives
/// nothing.
pub proof fn law_a_record_gives_its_blocks(v: JsonV, blocks: Seq<JsonV>)
    ensures
        v.get2("message"@, "content"@) == Some(JsonV::Arr(blocks)) ==> record_texts(v) == block_texts(
            blocks,
        ),
        !(v.get2("message"@, "content"@) is Some && v.get2("message"@, "content"@)->0 is Arr)
            ==> record_texts(v).len() == 0,
{
}

// ---- the reply ----------------------------------------------------------------------

/// The texts of the answer stand one below the other, with a blank line between;
/// where there is none, there is no reply.
pub proof fn law_a_reply_is_its_texts(a: Seq<Seq<char>>, b: Seq<Seq<char>>, t: Seq<char>)
    ensures
        reply_text(Seq::empty()) is None,
        reply_text(seq![t]) == Some(t),
        a.len() > 0 && b.len() > 0 ==> reply_text(a + b) == Some(
            reply_text(a)->0 + seq!['\n', '\n'] + reply_text(b)->0,
        ),
{
    reveal_strlit("\n\n");
    assert("\n\n"@ =~= seq!['\n', '\n']);
    if a.len() > 0 && b.len() > 0 {
        law_joining_adds_up(a, b, "\n\n"@);
    }
}

/// Every text block of the answer stands in the reply whole, character for
/// character and line for line, but for whitespace at its end: whatever records
/// stand before it, as long as the user has not asked on.
pub proof fn law_a_text_of_the_answer_stands_in_the_reply(
    before: Seq<JsonV>,
    question: JsonV,
    between: Seq<JsonV>,
    answer: JsonV,
    after: Seq<JsonV>,
    head: Seq<JsonV>,
    block: JsonV,
    tail: Seq<JsonV>,
    text: Seq<char>,
    blanks: Seq<char>,
)
    requires
        forall|i: int|
            0 <= i < before.len() ==> (#[trigger] before[i]).get("isSidechain"@) == Some(
                JsonV::Bool(true),
            ) || before[i].text_at("type"@) != Some("user"@),
        question.get("isSidechain"@) != Some(JsonV::Bool(true)),
        question.text_at("type"@) == Some("user"@),
        no_question(between),
        is_answer(answer),
        answer.get2("message"@, "content"@) == Some(JsonV::Arr(head.push(block) + tail)),
        block.text_at("type"@) == Some("text"@),
        block.text_at("text"@) == Some(text + blanks),
        is_blank(blanks),
        text.len() > 0,
        !is_white(text.last()),
    ensures
        ({
            let recs = before.push(question) + (between.push(answer) + after);
            &&& reply_text(turn_texts(recs, false)) matches Some(s)
            &&& occurs(s, text)
        }),
{
    reveal_strlit("user");
    reveal_strlit("assistant");
    assert("user"@.len() != "assistant"@.len());
    let follow = between.push(answer) + after;
    law_the_reply_follows_the_question(before, question, follow);
    law_the_answer_adds_up(between, seq![answer] + after);
    assert(follow =~= between + (seq![answer] + after));
    law_the_answer_adds_up(seq![answer], after);
    let blocks = head.push(block) + tail;
    law_blocks_are_read_in_order(head, seq![block] + tail);
    law_blocks_are_read_in_order(seq![block], tail);
    assert(blocks =~= head + (seq![block] + tail));
    law_a_block_gives_its_whole_text(block, text, blanks);
    let texts = turn_texts(follow, true);
    assert(turn_texts(seq![answer], true) == block_texts(blocks));
    let k = turn_texts(between, true).len() + block_texts(head).len();
    assert(texts == turn_texts(between, true) + (block_texts(blocks) + turn_texts(after, true)));
    assert(block_texts(blocks)[block_texts(head).len() as int] == text);
    assert(texts[k as int] == text);
    law_joining_keeps_the_parts(texts, "\n\n"@, k as int);
}

// ---- lines --------------------------------------------------------------------------

/// The records of a transcript are the documents on its lines, in order. A line
/// that is none, or blank, is passed over.
pub proof fn law_records_stand_on_lines(a: Seq<Seq<char>>, b: Seq<Seq<char>>, line: Seq<char>)
    ensures
        records(a + b) == records(a) + records(b),
        records(seq![line]) == if trim(line).len() > 0 && json_read(trim(line)) is Ok {
            seq![json_read(trim(line))->Ok_0]
        } else {
            Seq::empty()
        },
    decreases b.len(),
{
    let one = seq![line];
    assert(one.drop_last() =~= Seq::<Seq<char>>::empty());
    assert(one.last() == line);
    reveal_with_fuel(records, 2);
    assert(records(one) =~= if trim(line).len() > 0 && json_read(trim(line)) is Ok {
        seq![json_read(trim(line))->Ok_0]
    } else {
        Seq::<JsonV>::empty()
    });
    if b.len() > 0 {
        law_records_stand_on_lines(a, b.drop_last(), line);
        assert((a + b).drop_last() =~= a + b.drop_last());
        assert(records(a + b) =~= records(a) + records(b));
    } else {
        assert(a + b =~= a);
        assert(records(a) + records(b) =~= records(a));
    }
}

} // verus!
