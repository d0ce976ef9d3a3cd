use vstd::prelude::*;

use crate::graph_state::ObservableNodeType;

verus! {

/// The side of a node on which the bipartite layout draws its label.
#[derive(Clone, Copy, PartialEq, Eq, Debug, Structural)]
pub enum LabelSide {
    Left,
    Right,
}

impl LabelSide {
    /// Source labels go on the left and Destination labels on the right, so
    /// that the edges between the two columns stay clear.
    pub fn from_node(node_type: ObservableNodeType) -> (r: Self)
        ensures
            r == (match node_type {
                ObservableNodeType::Source => LabelSide::Left,
                ObservableNodeType::Destination => LabelSide::Right,
            }),
    {
        match node_type {
            ObservableNodeType::Source => LabelSide::Left,
            ObservableNodeType::Destination => LabelSide::Right,
        }
    }
}

/// Whether a node shows its label: always when labels are shown for all
/// nodes, otherwise while it is selected, dragged or hovered.
pub fn should_show_label(labels_always: bool, selected: bool, dragged: bool, hovered: bool) -> (r: bool)
    ensures
        r == (labels_always || selected || dragged || hovered),
{
    labels_always || selected || dragged || hovered
}

} // verus!
