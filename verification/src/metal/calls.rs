//! What the runtime calls of a streamed kernel hand over: every call names its op's
//! tag, node and pointers, each in its place.

use vstd::prelude::*;
use vstd::string::*;

use super::streamed::{
    call_env, CHANNEL, CALL_PART, CALL_REDUCE, CALL_WALK, CALL_PUT, CALL_ARGMAX,
};
use super::wide::{OpView, SlotsView};
use crate::format::{
    dec, fill, law_a_placeholder_is_filled, law_other_text_stays, law_pieces_are_filled_one_by_one,
    lookup,
};

verus! {

proof fn lemma_fill_step(lead: Seq<char>, c: char, rest: Seq<char>, env: Map<char, Seq<char>>)
    requires
        !lead.contains('$'),
        c != '$',
    ensures
        fill(lead + (seq!['$', c] + rest), env) == lead + (lookup(env, c) + fill(rest, env)),
{
    if lead.len() > 0 {
        assert(lead.contains(lead.last()));
    }
    law_pieces_are_filled_one_by_one(lead, seq!['$', c] + rest, env);
    law_pieces_are_filled_one_by_one(seq!['$', c], rest, env);
    law_a_placeholder_is_filled(c, env);
    law_other_text_stays(lead, env);
}

#[verifier::spinoff_prover]
#[verifier::rlimit(80)]
proof fn lemma_part_text()
    ensures
        CALL_PART@ == "    ptir_m1_execute_part("@ + (seq!['$', 't'] + ("u, status, descriptors, lane_params + "@ + (seq!['$', 'N'] + (", "@ + (seq!['$', 'a'] + (", "@ + (seq!['$', 'b'] + (", "@ + (seq!['$', 'c'] + (", "@ + (seq!['$', 'o'] + (", "@ + (seq!['$', 'd'] + ", temporary, m4_gtid, m4_gthreads);\n"@))))))))))))),
{
    reveal_strlit("    ptir_m1_execute_part(");
    reveal_strlit("u, status, descriptors, lane_params + ");
    reveal_strlit(", ");
    reveal_strlit(", temporary, m4_gtid, m4_gthreads);\n");
    reveal_strlit("    ptir_m1_execute_part($tu, status, descriptors, lane_params + $N, $a, $b, $c, $o, $d, temporary, m4_gtid, m4_gthreads);\n");
    assert(CALL_PART@ =~= "    ptir_m1_execute_part("@ + (seq!['$', 't'] + ("u, status, descriptors, lane_params + "@ + (seq!['$', 'N'] + (", "@ + (seq!['$', 'a'] + (", "@ + (seq!['$', 'b'] + (", "@ + (seq!['$', 'c'] + (", "@ + (seq!['$', 'o'] + (", "@ + (seq!['$', 'd'] + ", temporary, m4_gtid, m4_gthreads);\n"@))))))))))))));
}

/// The call of an op strided by the grid hands over its op's own.
#[verifier::spinoff_prover]
#[verifier::rlimit(40)]
pub proof fn law_a_part_call_hands_over_its_own(op: OpView, node: nat, s: SlotsView)
    ensures
        fill(CALL_PART@, call_env(op, node, s)) == "    ptir_m1_execute_part("@ + (dec(op.code as nat) + ("u, status, descriptors, lane_params + "@ + (dec(node) + (", "@ + (s.a0 + (", "@ + (s.a1 + (", "@ + (s.a2 + (", "@ + (s.o0 + (", "@ + (s.o1 + ", temporary, m4_gtid, m4_gthreads);\n"@))))))))))))),
{
    let env = call_env(op, node, s);
    lemma_part_text();
    assert(!"    ptir_m1_execute_part("@.contains('$')) by {
        reveal_strlit("    ptir_m1_execute_part(");
    }
    assert(!"u, status, descriptors, lane_params + "@.contains('$')) by {
        reveal_strlit("u, status, descriptors, lane_params + ");
    }
    assert(!", "@.contains('$')) by {
        reveal_strlit(", ");
    }
    assert(!", temporary, m4_gtid, m4_gthreads);\n"@.contains('$')) by {
        reveal_strlit(", temporary, m4_gtid, m4_gthreads);\n");
    }
    let t6 = ", "@ + (seq!['$', 'd'] + ", temporary, m4_gtid, m4_gthreads);\n"@);
    lemma_fill_step(", "@, 'd', ", temporary, m4_gtid, m4_gthreads);\n"@, env);
    let t5 = ", "@ + (seq!['$', 'o'] + t6);
    lemma_fill_step(", "@, 'o', t6, env);
    let t4 = ", "@ + (seq!['$', 'c'] + t5);
    lemma_fill_step(", "@, 'c', t5, env);
    let t3 = ", "@ + (seq!['$', 'b'] + t4);
    lemma_fill_step(", "@, 'b', t4, env);
    let t2 = ", "@ + (seq!['$', 'a'] + t3);
    lemma_fill_step(", "@, 'a', t3, env);
    let t1 = "u, status, descriptors, lane_params + "@ + (seq!['$', 'N'] + t2);
    lemma_fill_step("u, status, descriptors, lane_params + "@, 'N', t2, env);
    let t0 = "    ptir_m1_execute_part("@ + (seq!['$', 't'] + t1);
    lemma_fill_step("    ptir_m1_execute_part("@, 't', t1, env);
    law_other_text_stays(", temporary, m4_gtid, m4_gthreads);\n"@, env);
}

#[verifier::spinoff_prover]
#[verifier::rlimit(80)]
proof fn lemma_reduce_text()
    ensures
        CALL_REDUCE@ == "    m4_reduce_two_levels("@ + (seq!['$', 't'] + ("u, "@ + (seq!['$', 'a'] + (", "@ + (seq!['$', 'o'] + (", temporary, descriptors[lane_params["@ + (seq!['$', 'N'] + "].a0], step.level, m4_group.x, m4_groups.x, m3_tid, m3_threads, m3_tgbuf);\n"@))))))),
{
    reveal_strlit("    m4_reduce_two_levels(");
    reveal_strlit("u, ");
    reveal_strlit(", ");
    reveal_strlit(", temporary, descriptors[lane_params[");
    reveal_strlit("].a0], step.level, m4_group.x, m4_groups.x, m3_tid, m3_threads, m3_tgbuf);\n");
    reveal_strlit("    m4_reduce_two_levels($tu, $a, $o, temporary, descriptors[lane_params[$N].a0], step.level, m4_group.x, m4_groups.x, m3_tid, m3_threads, m3_tgbuf);\n");
    assert(CALL_REDUCE@ =~= "    m4_reduce_two_levels("@ + (seq!['$', 't'] + ("u, "@ + (seq!['$', 'a'] + (", "@ + (seq!['$', 'o'] + (", temporary, descriptors[lane_params["@ + (seq!['$', 'N'] + "].a0], step.level, m4_group.x, m4_groups.x, m3_tid, m3_threads, m3_tgbuf);\n"@))))))));
}

/// The call of a reduction hands over its op's own.
#[verifier::spinoff_prover]
#[verifier::rlimit(40)]
pub proof fn law_a_reduce_call_hands_over_its_own(op: OpView, node: nat, s: SlotsView)
    ensures
        fill(CALL_REDUCE@, call_env(op, node, s)) == "    m4_reduce_two_levels("@ + (dec(op.code as nat) + ("u, "@ + (s.a0 + (", "@ + (s.o0 + (", temporary, descriptors[lane_params["@ + (dec(node) + "].a0], step.level, m4_group.x, m4_groups.x, m3_tid, m3_threads, m3_tgbuf);\n"@))))))),
{
    let env = call_env(op, node, s);
    lemma_reduce_text();
    assert(!"    m4_reduce_two_levels("@.contains('$')) by {
        reveal_strlit("    m4_reduce_two_levels(");
    }
    assert(!"u, "@.contains('$')) by {
        reveal_strlit("u, ");
    }
    assert(!", "@.contains('$')) by {
        reveal_strlit(", ");
    }
    assert(!", temporary, descriptors[lane_params["@.contains('$')) by {
        reveal_strlit(", temporary, descriptors[lane_params[");
    }
    assert(!"].a0], step.level, m4_group.x, m4_groups.x, m3_tid, m3_threads, m3_tgbuf);\n"@.contains('$')) by {
        reveal_strlit("].a0], step.level, m4_group.x, m4_groups.x, m3_tid, m3_threads, m3_tgbuf);\n");
    }
    let t3 = ", temporary, descriptors[lane_params["@ + (seq!['$', 'N'] + "].a0], step.level, m4_group.x, m4_groups.x, m3_tid, m3_threads, m3_tgbuf);\n"@);
    lemma_fill_step(", temporary, descriptors[lane_params["@, 'N', "].a0], step.level, m4_group.x, m4_groups.x, m3_tid, m3_threads, m3_tgbuf);\n"@, env);
    let t2 = ", "@ + (seq!['$', 'o'] + t3);
    lemma_fill_step(", "@, 'o', t3, env);
    let t1 = "u, "@ + (seq!['$', 'a'] + t2);
    lemma_fill_step("u, "@, 'a', t2, env);
    let t0 = "    m4_reduce_two_levels("@ + (seq!['$', 't'] + t1);
    lemma_fill_step("    m4_reduce_two_levels("@, 't', t1, env);
    law_other_text_stays("].a0], step.level, m4_group.x, m4_groups.x, m3_tid, m3_threads, m3_tgbuf);\n"@, env);
}

#[verifier::spinoff_prover]
#[verifier::rlimit(80)]
proof fn lemma_walk_text()
    ensures
        CALL_WALK@ == "    if (m4_group.x != 0) return;\n    ptir_m1_execute_mt("@ + (seq!['$', 't'] + ("u, status, descriptors, lane_params + "@ + (seq!['$', 'N'] + (", "@ + (seq!['$', 'a'] + (", "@ + (seq!['$', 'b'] + (", "@ + (seq!['$', 'c'] + (", "@ + (seq!['$', 'o'] + (", "@ + (seq!['$', 'd'] + ", temporary, m3_tid, m3_threads, m3_tgbuf);\n"@))))))))))))),
{
    reveal_strlit("    if (m4_group.x != 0) return;\n    ptir_m1_execute_mt(");
    reveal_strlit("u, status, descriptors, lane_params + ");
    reveal_strlit(", ");
    reveal_strlit(", temporary, m3_tid, m3_threads, m3_tgbuf);\n");
    reveal_strlit("    if (m4_group.x != 0) return;\n    ptir_m1_execute_mt($tu, status, descriptors, lane_params + $N, $a, $b, $c, $o, $d, temporary, m3_tid, m3_threads, m3_tgbuf);\n");
    assert(CALL_WALK@ =~= "    if (m4_group.x != 0) return;\n    ptir_m1_execute_mt("@ + (seq!['$', 't'] + ("u, status, descriptors, lane_params + "@ + (seq!['$', 'N'] + (", "@ + (seq!['$', 'a'] + (", "@ + (seq!['$', 'b'] + (", "@ + (seq!['$', 'c'] + (", "@ + (seq!['$', 'o'] + (", "@ + (seq!['$', 'd'] + ", temporary, m3_tid, m3_threads, m3_tgbuf);\n"@))))))))))))));
}

/// The call of a walk hands over its op's own.
#[verifier::spinoff_prover]
#[verifier::rlimit(40)]
pub proof fn law_a_walk_call_hands_over_its_own(op: OpView, node: nat, s: SlotsView)
    ensures
        fill(CALL_WALK@, call_env(op, node, s)) == "    if (m4_group.x != 0) return;\n    ptir_m1_execute_mt("@ + (dec(op.code as nat) + ("u, status, descriptors, lane_params + "@ + (dec(node) + (", "@ + (s.a0 + (", "@ + (s.a1 + (", "@ + (s.a2 + (", "@ + (s.o0 + (", "@ + (s.o1 + ", temporary, m3_tid, m3_threads, m3_tgbuf);\n"@))))))))))))),
{
    let env = call_env(op, node, s);
    lemma_walk_text();
    assert(!"    if (m4_group.x != 0) return;\n    ptir_m1_execute_mt("@.contains('$')) by {
        reveal_strlit("    if (m4_group.x != 0) return;\n    ptir_m1_execute_mt(");
    }
    assert(!"u, status, descriptors, lane_params + "@.contains('$')) by {
        reveal_strlit("u, status, descriptors, lane_params + ");
    }
    assert(!", "@.contains('$')) by {
        reveal_strlit(", ");
    }
    assert(!", temporary, m3_tid, m3_threads, m3_tgbuf);\n"@.contains('$')) by {
        reveal_strlit(", temporary, m3_tid, m3_threads, m3_tgbuf);\n");
    }
    let t6 = ", "@ + (seq!['$', 'd'] + ", temporary, m3_tid, m3_threads, m3_tgbuf);\n"@);
    lemma_fill_step(", "@, 'd', ", temporary, m3_tid, m3_threads, m3_tgbuf);\n"@, env);
    let t5 = ", "@ + (seq!['$', 'o'] + t6);
    lemma_fill_step(", "@, 'o', t6, env);
    let t4 = ", "@ + (seq!['$', 'c'] + t5);
    lemma_fill_step(", "@, 'c', t5, env);
    let t3 = ", "@ + (seq!['$', 'b'] + t4);
    lemma_fill_step(", "@, 'b', t4, env);
    let t2 = ", "@ + (seq!['$', 'a'] + t3);
    lemma_fill_step(", "@, 'a', t3, env);
    let t1 = "u, status, descriptors, lane_params + "@ + (seq!['$', 'N'] + t2);
    lemma_fill_step("u, status, descriptors, lane_params + "@, 'N', t2, env);
    let t0 = "    if (m4_group.x != 0) return;\n    ptir_m1_execute_mt("@ + (seq!['$', 't'] + t1);
    lemma_fill_step("    if (m4_group.x != 0) return;\n    ptir_m1_execute_mt("@, 't', t1, env);
    law_other_text_stays(", temporary, m3_tid, m3_threads, m3_tgbuf);\n"@, env);
}

#[verifier::spinoff_prover]
#[verifier::rlimit(80)]
proof fn lemma_put_text()
    ensures
        CALL_PUT@ == "    ptir_m1_execute_part("@ + (seq!['$', 't'] + ("u, status, descriptors, lane_params + "@ + (seq!['$', 'N'] + (", "@ + (seq!['$', 'a'] + (", "@ + (seq!['$', 'b'] + (", "@ + (seq!['$', 'c'] + (", "@ + (seq!['$', 'o'] + (", "@ + (seq!['$', 'd'] + (", temporary, m4_gtid, m4_gthreads);\n    if (m4_gtid == 0) pending_flags[pending_index_"@ + (seq!['$', 'h'] + "] = 1;\n"@))))))))))))))),
{
    reveal_strlit("    ptir_m1_execute_part(");
    reveal_strlit("u, status, descriptors, lane_params + ");
    reveal_strlit(", ");
    reveal_strlit(", temporary, m4_gtid, m4_gthreads);\n    if (m4_gtid == 0) pending_flags[pending_index_");
    reveal_strlit("] = 1;\n");
    reveal_strlit("    ptir_m1_execute_part($tu, status, descriptors, lane_params + $N, $a, $b, $c, $o, $d, temporary, m4_gtid, m4_gthreads);\n    if (m4_gtid == 0) pending_flags[pending_index_$h] = 1;\n");
    assert(CALL_PUT@ =~= "    ptir_m1_execute_part("@ + (seq!['$', 't'] + ("u, status, descriptors, lane_params + "@ + (seq!['$', 'N'] + (", "@ + (seq!['$', 'a'] + (", "@ + (seq!['$', 'b'] + (", "@ + (seq!['$', 'c'] + (", "@ + (seq!['$', 'o'] + (", "@ + (seq!['$', 'd'] + (", temporary, m4_gtid, m4_gthreads);\n    if (m4_gtid == 0) pending_flags[pending_index_"@ + (seq!['$', 'h'] + "] = 1;\n"@))))))))))))))));
}

/// The call of a put, which also flags its channel, hands over its op's own.
#[verifier::spinoff_prover]
#[verifier::rlimit(40)]
pub proof fn law_a_put_call_hands_over_its_own(op: OpView, node: nat, s: SlotsView)
    ensures
        fill(CALL_PUT@, call_env(op, node, s)) == "    ptir_m1_execute_part("@ + (dec(op.code as nat) + ("u, status, descriptors, lane_params + "@ + (dec(node) + (", "@ + (s.a0 + (", "@ + (s.a1 + (", "@ + (s.a2 + (", "@ + (s.o0 + (", "@ + (s.o1 + (", temporary, m4_gtid, m4_gthreads);\n    if (m4_gtid == 0) pending_flags[pending_index_"@ + (dec(op.chan as nat) + "] = 1;\n"@))))))))))))))),
{
    let env = call_env(op, node, s);
    lemma_put_text();
    assert(!"    ptir_m1_execute_part("@.contains('$')) by {
        reveal_strlit("    ptir_m1_execute_part(");
    }
    assert(!"u, status, descriptors, lane_params + "@.contains('$')) by {
        reveal_strlit("u, status, descriptors, lane_params + ");
    }
    assert(!", "@.contains('$')) by {
        reveal_strlit(", ");
    }
    assert(!", temporary, m4_gtid, m4_gthreads);\n    if (m4_gtid == 0) pending_flags[pending_index_"@.contains('$')) by {
        reveal_strlit(", temporary, m4_gtid, m4_gthreads);\n    if (m4_gtid == 0) pending_flags[pending_index_");
    }
    assert(!"] = 1;\n"@.contains('$')) by {
        reveal_strlit("] = 1;\n");
    }
    let t7 = ", temporary, m4_gtid, m4_gthreads);\n    if (m4_gtid == 0) pending_flags[pending_index_"@ + (seq!['$', 'h'] + "] = 1;\n"@);
    lemma_fill_step(", temporary, m4_gtid, m4_gthreads);\n    if (m4_gtid == 0) pending_flags[pending_index_"@, 'h', "] = 1;\n"@, env);
    let t6 = ", "@ + (seq!['$', 'd'] + t7);
    lemma_fill_step(", "@, 'd', t7, env);
    let t5 = ", "@ + (seq!['$', 'o'] + t6);
    lemma_fill_step(", "@, 'o', t6, env);
    let t4 = ", "@ + (seq!['$', 'c'] + t5);
    lemma_fill_step(", "@, 'c', t5, env);
    let t3 = ", "@ + (seq!['$', 'b'] + t4);
    lemma_fill_step(", "@, 'b', t4, env);
    let t2 = ", "@ + (seq!['$', 'a'] + t3);
    lemma_fill_step(", "@, 'a', t3, env);
    let t1 = "u, status, descriptors, lane_params + "@ + (seq!['$', 'N'] + t2);
    lemma_fill_step("u, status, descriptors, lane_params + "@, 'N', t2, env);
    let t0 = "    ptir_m1_execute_part("@ + (seq!['$', 't'] + t1);
    lemma_fill_step("    ptir_m1_execute_part("@, 't', t1, env);
    law_other_text_stays("] = 1;\n"@, env);
}

#[verifier::spinoff_prover]
#[verifier::rlimit(80)]
proof fn lemma_argmax_text()
    ensures
        CALL_ARGMAX@ == "    if (step.level == 0u) m4_argmax_partial("@ + (seq!['$', 'a'] + (", temporary, descriptors[lane_params["@ + (seq!['$', 'N'] + ("].a0], m4_group.x, m4_groups.x, m3_tid, m3_threads, m3_tgbuf);\n    else { if (m4_group.x != 0) return; m4_argmax_final(temporary, "@ + (seq!['$', 'o'] + (", descriptors[lane_params["@ + (seq!['$', 'N'] + "].a0], step.groups, m3_tid, m3_threads, m3_tgbuf); }\n"@))))))),
{
    reveal_strlit("    if (step.level == 0u) m4_argmax_partial(");
    reveal_strlit(", temporary, descriptors[lane_params[");
    reveal_strlit("].a0], m4_group.x, m4_groups.x, m3_tid, m3_threads, m3_tgbuf);\n    else { if (m4_group.x != 0) return; m4_argmax_final(temporary, ");
    reveal_strlit(", descriptors[lane_params[");
    reveal_strlit("].a0], step.groups, m3_tid, m3_threads, m3_tgbuf); }\n");
    reveal_strlit("    if (step.level == 0u) m4_argmax_partial($a, temporary, descriptors[lane_params[$N].a0], m4_group.x, m4_groups.x, m3_tid, m3_threads, m3_tgbuf);\n    else { if (m4_group.x != 0) return; m4_argmax_final(temporary, $o, descriptors[lane_params[$N].a0], step.groups, m3_tid, m3_threads, m3_tgbuf); }\n");
    assert(CALL_ARGMAX@ =~= "    if (step.level == 0u) m4_argmax_partial("@ + (seq!['$', 'a'] + (", temporary, descriptors[lane_params["@ + (seq!['$', 'N'] + ("].a0], m4_group.x, m4_groups.x, m3_tid, m3_threads, m3_tgbuf);\n    else { if (m4_group.x != 0) return; m4_argmax_final(temporary, "@ + (seq!['$', 'o'] + (", descriptors[lane_params["@ + (seq!['$', 'N'] + "].a0], step.groups, m3_tid, m3_threads, m3_tgbuf); }\n"@))))))));
}

/// Each pass of an argmax hands over its op's own.
#[verifier::spinoff_prover]
#[verifier::rlimit(40)]
pub proof fn law_a_argmax_call_hands_over_its_own(op: OpView, node: nat, s: SlotsView)
    ensures
        fill(CALL_ARGMAX@, call_env(op, node, s)) == "    if (step.level == 0u) m4_argmax_partial("@ + (s.a0 + (", temporary, descriptors[lane_params["@ + (dec(node) + ("].a0], m4_group.x, m4_groups.x, m3_tid, m3_threads, m3_tgbuf);\n    else { if (m4_group.x != 0) return; m4_argmax_final(temporary, "@ + (s.o0 + (", descriptors[lane_params["@ + (dec(node) + "].a0], step.groups, m3_tid, m3_threads, m3_tgbuf); }\n"@))))))),
{
    let env = call_env(op, node, s);
    lemma_argmax_text();
    assert(!"    if (step.level == 0u) m4_argmax_partial("@.contains('$')) by {
        reveal_strlit("    if (step.level == 0u) m4_argmax_partial(");
    }
    assert(!", temporary, descriptors[lane_params["@.contains('$')) by {
        reveal_strlit(", temporary, descriptors[lane_params[");
    }
    assert(!"].a0], m4_group.x, m4_groups.x, m3_tid, m3_threads, m3_tgbuf);\n    else { if (m4_group.x != 0) return; m4_argmax_final(temporary, "@.contains('$')) by {
        reveal_strlit("].a0], m4_group.x, m4_groups.x, m3_tid, m3_threads, m3_tgbuf);\n    else { if (m4_group.x != 0) return; m4_argmax_final(temporary, ");
    }
    assert(!", descriptors[lane_params["@.contains('$')) by {
        reveal_strlit(", descriptors[lane_params[");
    }
    assert(!"].a0], step.groups, m3_tid, m3_threads, m3_tgbuf); }\n"@.contains('$')) by {
        reveal_strlit("].a0], step.groups, m3_tid, m3_threads, m3_tgbuf); }\n");
    }
    let t3 = ", descriptors[lane_params["@ + (seq!['$', 'N'] + "].a0], step.groups, m3_tid, m3_threads, m3_tgbuf); }\n"@);
    lemma_fill_step(", descriptors[lane_params["@, 'N', "].a0], step.groups, m3_tid, m3_threads, m3_tgbuf); }\n"@, env);
    let t2 = "].a0], m4_group.x, m4_groups.x, m3_tid, m3_threads, m3_tgbuf);\n    else { if (m4_group.x != 0) return; m4_argmax_final(temporary, "@ + (seq!['$', 'o'] + t3);
    lemma_fill_step("].a0], m4_group.x, m4_groups.x, m3_tid, m3_threads, m3_tgbuf);\n    else { if (m4_group.x != 0) return; m4_argmax_final(temporary, "@, 'o', t3, env);
    let t1 = ", temporary, descriptors[lane_params["@ + (seq!['$', 'N'] + t2);
    lemma_fill_step(", temporary, descriptors[lane_params["@, 'N', t2, env);
    let t0 = "    if (step.level == 0u) m4_argmax_partial("@ + (seq!['$', 'a'] + t1);
    lemma_fill_step("    if (step.level == 0u) m4_argmax_partial("@, 'a', t1, env);
    law_other_text_stays("].a0], step.groups, m3_tid, m3_threads, m3_tgbuf); }\n"@, env);
}

#[verifier::spinoff_prover]
#[verifier::rlimit(100)]
proof fn lemma_channel_text()
    ensures
        CHANNEL@ == "  const uint dense_"@ + (seq!['$', 'C'] + (" = channel_bindings[dispatch_lane * layout->reserved0 + "@ + (seq!['$', 'C'] + ("];\n  const M3LaneChannelSlot channel_"@ + (seq!['$', 'C'] + (" = slots[lane.channel_slot_offset + dense_"@ + (seq!['$', 'C'] + ("];\n  const uint pending_index_"@ + (seq!['$', 'C'] + (" = lane.channel_slot_offset + dense_"@ + (seq!['$', 'C'] + (";\n  const device uchar* current_"@ + (seq!['$', 'C'] + (" = reinterpret_cast<const device uchar*>(pending_flags[pending_index_"@ + (seq!['$', 'C'] + ("] != 0 ? channel_"@ + (seq!['$', 'C'] + (".pending_cell : channel_"@ + (seq!['$', 'C'] + (".committed_cell);\n  device uchar* pending_"@ + (seq!['$', 'C'] + (" = reinterpret_cast<device uchar*>(channel_"@ + (seq!['$', 'C'] + ".pending_cell);\n"@))))))))))))))))))))))),
{
    reveal_strlit("  const uint dense_");
    reveal_strlit(" = channel_bindings[dispatch_lane * layout->reserved0 + ");
    reveal_strlit("];\n  const M3LaneChannelSlot channel_");
    reveal_strlit(" = slots[lane.channel_slot_offset + dense_");
    reveal_strlit("];\n  const uint pending_index_");
    reveal_strlit(" = lane.channel_slot_offset + dense_");
    reveal_strlit(";\n  const device uchar* current_");
    reveal_strlit(" = reinterpret_cast<const device uchar*>(pending_flags[pending_index_");
    reveal_strlit("] != 0 ? channel_");
    reveal_strlit(".pending_cell : channel_");
    reveal_strlit(".committed_cell);\n  device uchar* pending_");
    reveal_strlit(" = reinterpret_cast<device uchar*>(channel_");
    reveal_strlit(".pending_cell);\n");
    reveal_strlit("  const uint dense_$C = channel_bindings[dispatch_lane * layout->reserved0 + $C];\n  const M3LaneChannelSlot channel_$C = slots[lane.channel_slot_offset + dense_$C];\n  const uint pending_index_$C = lane.channel_slot_offset + dense_$C;\n  const device uchar* current_$C = reinterpret_cast<const device uchar*>(pending_flags[pending_index_$C] != 0 ? channel_$C.pending_cell : channel_$C.committed_cell);\n  device uchar* pending_$C = reinterpret_cast<device uchar*>(channel_$C.pending_cell);\n");
    assert(CHANNEL@ =~= "  const uint dense_"@ + (seq!['$', 'C'] + (" = channel_bindings[dispatch_lane * layout->reserved0 + "@ + (seq!['$', 'C'] + ("];\n  const M3LaneChannelSlot channel_"@ + (seq!['$', 'C'] + (" = slots[lane.channel_slot_offset + dense_"@ + (seq!['$', 'C'] + ("];\n  const uint pending_index_"@ + (seq!['$', 'C'] + (" = lane.channel_slot_offset + dense_"@ + (seq!['$', 'C'] + (";\n  const device uchar* current_"@ + (seq!['$', 'C'] + (" = reinterpret_cast<const device uchar*>(pending_flags[pending_index_"@ + (seq!['$', 'C'] + ("] != 0 ? channel_"@ + (seq!['$', 'C'] + (".pending_cell : channel_"@ + (seq!['$', 'C'] + (".committed_cell);\n  device uchar* pending_"@ + (seq!['$', 'C'] + (" = reinterpret_cast<device uchar*>(channel_"@ + (seq!['$', 'C'] + ".pending_cell);\n"@))))))))))))))))))))))));
}

/// The set-up of a channel reads and binds that channel alone: its binding, its
/// slot, its pending flag and its two cells, each under the channel's number.
#[verifier::spinoff_prover]
#[verifier::rlimit(60)]
pub proof fn law_a_channel_is_set_up_under_its_number(n: nat)
    ensures
        fill(CHANNEL@, map!['C' => dec(n)]) == "  const uint dense_"@ + (dec(n) + (" = channel_bindings[dispatch_lane * layout->reserved0 + "@ + (dec(n) + ("];\n  const M3LaneChannelSlot channel_"@ + (dec(n) + (" = slots[lane.channel_slot_offset + dense_"@ + (dec(n) + ("];\n  const uint pending_index_"@ + (dec(n) + (" = lane.channel_slot_offset + dense_"@ + (dec(n) + (";\n  const device uchar* current_"@ + (dec(n) + (" = reinterpret_cast<const device uchar*>(pending_flags[pending_index_"@ + (dec(n) + ("] != 0 ? channel_"@ + (dec(n) + (".pending_cell : channel_"@ + (dec(n) + (".committed_cell);\n  device uchar* pending_"@ + (dec(n) + (" = reinterpret_cast<device uchar*>(channel_"@ + (dec(n) + ".pending_cell);\n"@))))))))))))))))))))))),
{
    let env = map!['C' => dec(n)];
    lemma_channel_text();
    assert(!"  const uint dense_"@.contains('$')) by {
        reveal_strlit("  const uint dense_");
    }
    assert(!" = channel_bindings[dispatch_lane * layout->reserved0 + "@.contains('$')) by {
        reveal_strlit(" = channel_bindings[dispatch_lane * layout->reserved0 + ");
    }
    assert(!"];\n  const M3LaneChannelSlot channel_"@.contains('$')) by {
        reveal_strlit("];\n  const M3LaneChannelSlot channel_");
    }
    assert(!" = slots[lane.channel_slot_offset + dense_"@.contains('$')) by {
        reveal_strlit(" = slots[lane.channel_slot_offset + dense_");
    }
    assert(!"];\n  const uint pending_index_"@.contains('$')) by {
        reveal_strlit("];\n  const uint pending_index_");
    }
    assert(!" = lane.channel_slot_offset + dense_"@.contains('$')) by {
        reveal_strlit(" = lane.channel_slot_offset + dense_");
    }
    assert(!";\n  const device uchar* current_"@.contains('$')) by {
        reveal_strlit(";\n  const device uchar* current_");
    }
    assert(!" = reinterpret_cast<const device uchar*>(pending_flags[pending_index_"@.contains('$')) by {
        reveal_strlit(" = reinterpret_cast<const device uchar*>(pending_flags[pending_index_");
    }
    assert(!"] != 0 ? channel_"@.contains('$')) by {
        reveal_strlit("] != 0 ? channel_");
    }
    assert(!".pending_cell : channel_"@.contains('$')) by {
        reveal_strlit(".pending_cell : channel_");
    }
    assert(!".committed_cell);\n  device uchar* pending_"@.contains('$')) by {
        reveal_strlit(".committed_cell);\n  device uchar* pending_");
    }
    assert(!" = reinterpret_cast<device uchar*>(channel_"@.contains('$')) by {
        reveal_strlit(" = reinterpret_cast<device uchar*>(channel_");
    }
    assert(!".pending_cell);\n"@.contains('$')) by {
        reveal_strlit(".pending_cell);\n");
    }
    let t11 = " = reinterpret_cast<device uchar*>(channel_"@ + (seq!['$', 'C'] + ".pending_cell);\n"@);
    lemma_fill_step(" = reinterpret_cast<device uchar*>(channel_"@, 'C', ".pending_cell);\n"@, env);
    let t10 = ".committed_cell);\n  device uchar* pending_"@ + (seq!['$', 'C'] + t11);
    lemma_fill_step(".committed_cell);\n  device uchar* pending_"@, 'C', t11, env);
    let t9 = ".pending_cell : channel_"@ + (seq!['$', 'C'] + t10);
    lemma_fill_step(".pending_cell : channel_"@, 'C', t10, env);
    let t8 = "] != 0 ? channel_"@ + (seq!['$', 'C'] + t9);
    lemma_fill_step("] != 0 ? channel_"@, 'C', t9, env);
    let t7 = " = reinterpret_cast<const device uchar*>(pending_flags[pending_index_"@ + (seq!['$', 'C'] + t8);
    lemma_fill_step(" = reinterpret_cast<const device uchar*>(pending_flags[pending_index_"@, 'C', t8, env);
    let t6 = ";\n  const device uchar* current_"@ + (seq!['$', 'C'] + t7);
    lemma_fill_step(";\n  const device uchar* current_"@, 'C', t7, env);
    let t5 = " = lane.channel_slot_offset + dense_"@ + (seq!['$', 'C'] + t6);
    lemma_fill_step(" = lane.channel_slot_offset + dense_"@, 'C', t6, env);
    let t4 = "];\n  const uint pending_index_"@ + (seq!['$', 'C'] + t5);
    lemma_fill_step("];\n  const uint pending_index_"@, 'C', t5, env);
    let t3 = " = slots[lane.channel_slot_offset + dense_"@ + (seq!['$', 'C'] + t4);
    lemma_fill_step(" = slots[lane.channel_slot_offset + dense_"@, 'C', t4, env);
    let t2 = "];\n  const M3LaneChannelSlot channel_"@ + (seq!['$', 'C'] + t3);
    lemma_fill_step("];\n  const M3LaneChannelSlot channel_"@, 'C', t3, env);
    let t1 = " = channel_bindings[dispatch_lane * layout->reserved0 + "@ + (seq!['$', 'C'] + t2);
    lemma_fill_step(" = channel_bindings[dispatch_lane * layout->reserved0 + "@, 'C', t2, env);
    let t0 = "  const uint dense_"@ + (seq!['$', 'C'] + t1);
    lemma_fill_step("  const uint dense_"@, 'C', t1, env);
    law_other_text_stays(".pending_cell);\n"@, env);
}

} // verus!
