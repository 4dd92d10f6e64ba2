//! What holds of every lowered module, in one: in each function the
//! temporaries are written once and before they are read and the jumps
//! have their labels exactly once, and no label is defined in two
//! functions.

use vstd::prelude::*;
use crate::ast::DeclarationView;
use crate::ir::{FunView, InstructionView};
use crate::labels::{
    all_jumps_are_labelled_once, count_label, jumps_are_labelled_once, labels_are_below,
    lemma_declaration_labels_jumps_once, lemma_declaration_shares_no_label, no_label_is_shared,
    numbered, range,
};
use crate::lowering::{fresh, label_name, lower_declaration, lower_declarations, LowererView};
use crate::scoping::{
    all_write_before_read, all_write_once, lemma_declaration_writes_before_read,
    lemma_declaration_writes_once, temps_written_before_read, temps_written_once,
};

verus! {

/// Whether `code` writes each temporary at most once and before any
/// instruction reads it, and defines the label of each jump exactly once.
pub open spec fn well_formed(code: Seq<InstructionView>) -> bool {
    &&& temps_written_before_read(code)
    &&& temps_written_once(code)
    &&& jumps_are_labelled_once(code)
}

/// Whether the instructions of every function of `functions` are well
/// formed.
pub open spec fn all_well_formed(functions: Seq<FunView>) -> bool {
    forall|i: int| 0 <= i < functions.len() ==> well_formed(#[trigger] functions[i].body)
}

/// All functions are well formed where all have each of the three
/// properties.
pub proof fn lemma_all_well_formed(functions: Seq<FunView>)
    ensures
        all_well_formed(functions) <==> all_write_before_read(functions) && all_write_once(
            functions,
        ) && all_jumps_are_labelled_once(functions),
{
    if all_well_formed(functions) {
        assert forall|i: int| 0 <= i < functions.len() implies temps_written_before_read(
            #[trigger] functions[i].body,
        ) && temps_written_once(functions[i].body) && jumps_are_labelled_once(
            functions[i].body,
        ) by {
            assert(well_formed(functions[i].body));
        }
    }
}

/// Whether what a lowerer holds is sound: every function is well formed,
/// the labels of all functions were taken before the labels that are
/// still free, and no label is defined in two functions.
pub open spec fn sound(state: LowererView) -> bool {
    &&& all_well_formed(state.functions)
    &&& labels_are_below(state.functions, state.label_count)
    &&& no_label_is_shared(state.functions)
}

/// A new lowerer is sound.
pub proof fn lemma_fresh_is_sound()
    ensures
        sound(fresh()),
{
}

/// A sound lowerer stays sound whatever else changes, as long as its
/// functions stay and it gives no label back.
pub proof fn lemma_more_labels_keep_sound(state: LowererView)
    requires
        sound(state),
    ensures
        forall|later: LowererView|
            later.functions == state.functions && later.label_count >= state.label_count
                ==> #[trigger] sound(later),
{
    assert forall|later: LowererView|
        later.functions == state.functions && later.label_count
            >= state.label_count implies #[trigger] sound(later) by {
        assert forall|i: int, name: Seq<char>|
            0 <= i < later.functions.len() && #[trigger] count_label(
                later.functions[i].body,
                name,
            ) > 0 implies numbered(name, range(0, later.label_count)) by {
            assert(numbered(name, range(0, state.label_count)));
            let k = choose|k: nat|
                range(0, state.label_count).contains(k) && name == #[trigger] label_name(k);
            assert(range(0, later.label_count).contains(k));
        }
    }
}

/// Lowering a declaration keeps a lowerer sound.
pub proof fn lemma_declaration_keeps_sound(d: DeclarationView, state: LowererView)
    requires
        sound(state),
    ensures
        lower_declaration(d, state) matches Ok(after) ==> sound(after),
{
    lemma_all_well_formed(state.functions);
    lemma_declaration_writes_before_read(d, state);
    lemma_declaration_writes_once(d, state);
    lemma_declaration_labels_jumps_once(d, state);
    lemma_declaration_shares_no_label(d, state);
    if let Ok(after) = lower_declaration(d, state) {
        lemma_all_well_formed(after.functions);
    }
}

/// Lowering a program keeps a lowerer sound.
pub proof fn lemma_program_keeps_sound(items: Seq<DeclarationView>, state: LowererView)
    requires
        sound(state),
    ensures
        lower_declarations(items, state) matches Ok(after) ==> sound(after),
    decreases items.len(),
{
    if items.len() > 0 {
        lemma_program_keeps_sound(items.drop_last(), state);
        if let Ok(front) = lower_declarations(items.drop_last(), state) {
            lemma_declaration_keeps_sound(items.last(), front);
        }
    }
}

/// What a new lowerer holds after it has lowered a program is sound: in
/// every function, each temporary is written by one instruction and read
/// only by later ones, and the label of each jump is defined by exactly
/// one instruction; and no label is defined in two functions.
pub proof fn lemma_lowered_program_is_sound(items: Seq<DeclarationView>)
    ensures
        lower_declarations(items, fresh()) matches Ok(after) ==> sound(after),
{
    lemma_program_keeps_sound(items, fresh());
}

} // verus!
