//! The counters and the cache entries as text, for a report on the console.

use crate::api::{average, hash_text};
use crate::ast::JitStats;
use crate::cache::{EntryView, JitEntry};
use crate::layout::MAX_SLOTS;
use crate::layout::slot_offset;
use crate::text::{decimal_text, hex_text, push_digits, push_text, zeros};
use vstd::prelude::*;

verus! {

/// The lines that report the counters: the totals, the times in microseconds, and the
/// mean times in nanoseconds where there is anything to take a mean of.
pub open spec fn summary_text(stats: JitStats) -> Seq<char> {
    "\n📊 JIT統計情報:\n  総実行回数: "@ + decimal_text(stats.total_executions as nat)
        + "\n  JITコンパイル回数: "@ + decimal_text(stats.jit_compilations as nat)
        + "\n  総実行時間: "@ + decimal_text((stats.total_execution_time_ns / 1000) as nat)
        + "μs\n  総コンパイル時間: "@ + decimal_text(
        (stats.total_compilation_time_ns / 1000) as nat,
    ) + "μs\n"@ + (if stats.total_executions > 0 {
        "  平均実行時間: "@ + decimal_text(
            average(stats.total_execution_time_ns, stats.total_executions) as nat,
        ) + "ns\n"@
    } else {
        Seq::empty()
    }) + (if stats.jit_compilations > 0 {
        "  平均コンパイル時間: "@ + decimal_text(
            average(stats.total_compilation_time_ns, stats.jit_compilations) as nat,
        ) + "ns\n"@
    } else {
        Seq::empty()
    })
}

/// The lines that report the counters.
pub fn summary_of(stats: &JitStats) -> (text: String)
    ensures
        text@ == summary_text(*stats),
{
    let mut text = String::new();
    push_text(&mut text, "\n📊 JIT統計情報:\n  総実行回数: ");
    push_number(&mut text, stats.total_executions);
    push_text(&mut text, "\n  JITコンパイル回数: ");
    push_number(&mut text, stats.jit_compilations);
    push_text(&mut text, "\n  総実行時間: ");
    push_number(&mut text, stats.total_execution_time_ns / 1000);
    push_text(&mut text, "μs\n  総コンパイル時間: ");
    push_number(&mut text, stats.total_compilation_time_ns / 1000);
    push_text(&mut text, "μs\n");
    if stats.total_executions > 0 {
        push_text(&mut text, "  平均実行時間: ");
        push_number(&mut text, stats.total_execution_time_ns / stats.total_executions);
        push_text(&mut text, "ns\n");
    }
    if stats.jit_compilations > 0 {
        push_text(&mut text, "  平均コンパイル時間: ");
        push_number(&mut text, stats.total_compilation_time_ns / stats.jit_compilations);
        push_text(&mut text, "ns\n");
    }
    proof {
        assert(text@ =~= summary_text(*stats));
    }
    text
}

/// Appends `n` in decimal.
fn push_number(text: &mut String, n: u64)
    ensures
        final(text)@ == old(text)@ + decimal_text(n as nat),
{
    push_digits(text, n, 10, 0);
    assert(zeros(0 - decimal_text(n as nat).len()) =~= Seq::<char>::empty());
    assert(text@ =~= old(text)@ + decimal_text(n as nat));
}

/// The heading that stands before the cache entries of a report.
pub fn cache_heading() -> (text: String)
    ensures
        text@ == "\n🔍 JITキャッシュ情報:\n"@,
{
    "\n🔍 JITキャッシュ情報:\n".to_string()
}

/// `true` or `false`.
pub open spec fn bool_text(b: bool) -> Seq<char> {
    if b {
        "true"@
    } else {
        "false"@
    }
}

/// The variables of a layout with their frame offsets, in first-write order, as
/// `{"x": -8, "y": -16}`.
pub open spec fn variables_text(names: Seq<Seq<char>>) -> Seq<char> {
    "{"@ + variable_items(names, names.len() as int) + "}"@
}

/// The first `n` variables of a layout with their frame offsets, separated by commas.
pub open spec fn variable_items(names: Seq<Seq<char>>, n: int) -> Seq<char>
    decreases n,
{
    if n <= 0 {
        Seq::empty()
    } else {
        variable_items(names, n - 1) + (if n > 1 {
            ", "@
        } else {
            Seq::empty()
        }) + "\""@ + names[n - 1] + "\": -"@ + decimal_text((-slot_offset(n - 1)) as nat)
    }
}

/// The lines that report a cache entry: its fingerprint, its count and whether it is
/// compiled, and for a compiled entry the size of its code and its variables.
pub open spec fn entry_text(entry: EntryView) -> Seq<char> {
    "  Hash: "@ + hash_text(entry.expr_hash) + ", 実行回数: "@ + decimal_text(
        entry.execution_count as nat,
    ) + ", JITコンパイル済み: "@ + bool_text(entry.artifact is Some) + "\n"@ + (
    match entry.artifact {
        Some(artifact) => "    マシンコードサイズ: "@ + decimal_text(artifact.code.len())
            + "バイト\n    変数: "@ + variables_text(artifact.layout) + "\n"@,
        None => Seq::empty(),
    })
}

/// The lines that report a cache entry.
pub fn entry_report(entry: &JitEntry) -> (text: String)
    ensures
        text@ == entry_text(entry@),
{
    let mut text = String::new();
    push_text(&mut text, "  Hash: ");
    push_text(&mut text, "0x");
    push_digits(&mut text, entry.expr_hash, 16, 0);
    proof {
        assert(zeros(0 - hex_text(entry.expr_hash as nat).len()) =~= Seq::<char>::empty());
    }
    push_text(&mut text, ", 実行回数: ");
    push_number(&mut text, entry.execution_count);
    push_text(&mut text, ", JITコンパイル済み: ");
    match &entry.compiled_function {
        Some(function) => {
            push_text(&mut text, "true");
            push_text(&mut text, "\n");
            push_text(&mut text, "    マシンコードサイズ: ");
            push_number(&mut text, function.code.len() as u64);
            push_text(&mut text, "バイト\n    変数: ");
            push_text(&mut text, "{");
            let names = function.variables.names();
            let ghost head = text@;
            let ghost views = function.variables@;
            let count = function.variables.len();
            let mut i: usize = 0;
            while i < count
                invariant
                    count == names@.len(),
                    i <= names@.len(),
                    names@.len() == views.len(),
                    names@.len() <= MAX_SLOTS,
                    forall|k: int| 0 <= k < names@.len() ==> #[trigger] names@[k]@ == views[k],
                    text@ == head + variable_items(views, i as int),
                decreases names@.len() - i,
            {
                if i > 0 {
                    push_text(&mut text, ", ");
                }
                push_text(&mut text, "\"");
                push_text(&mut text, names[i].as_str());
                push_text(&mut text, "\": -");
                push_number(&mut text, 8 * (i as u64 + 1));
                i = i + 1;
                assert(text@ =~= head + variable_items(views, i as int));
            }
            push_text(&mut text, "}");
            push_text(&mut text, "\n");
            proof {
                assert(text@ =~= entry_text(entry@));
            }
        },
        None => {
            push_text(&mut text, "false");
            push_text(&mut text, "\n");
            proof {
                assert(text@ =~= entry_text(entry@));
            }
        },
    }
    text
}

} // verus!
