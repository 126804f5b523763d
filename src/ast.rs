use vstd::prelude::*;
use crate::template::StringNode;
use crate::text::owned;

verus! {

/// The texts of `childs`, one after the other.
pub open spec fn children_text(childs: Seq<StringNode>) -> Seq<char>
    decreases childs.len(),
{
    if childs.len() == 0 {
        Seq::empty()
    } else {
        children_text(childs.drop_last()) + childs.last().value@
    }
}

/// A `<delete>` statement tag: its id and the pieces of SQL inside it.
#[derive(Debug, Clone)]
pub struct DeleteNode {
    pub id: String,
    pub childs: Vec<StringNode>,
}

impl DeleteNode {
    /// The tag as markup: `<delete id=ID>`, the children's texts, `</delete>`.
    pub fn print(&self) -> (r: String)
        ensures
            r@ == seq!['<', 'd', 'e', 'l', 'e', 't', 'e', ' ', 'i', 'd', '='] + self.id@ + seq!['>']
                + children_text(self.childs@) + seq!['<', '/', 'd', 'e', 'l', 'e', 't', 'e', '>'],
    {
        let mut result = owned("<delete id=");
        proof {
            reveal_strlit("<delete id=");
        }
        result.append(self.id.as_str());
        result.append(">");
        proof {
            reveal_strlit(">");
        }
        let ghost head = result@;
        let mut i: usize = 0;
        assert(self.childs@.take(0) =~= Seq::<StringNode>::empty());
        assert(result@ =~= head + children_text(self.childs@.take(0)));
        while i < self.childs.len()
            invariant
                i <= self.childs@.len(),
                result@ == head + children_text(self.childs@.take(i as int)),
            decreases self.childs.len() - i,
        {
            assert(self.childs@.take(i as int + 1).drop_last() =~= self.childs@.take(i as int));
            let t = self.childs[i].print();
            result.append(t.as_str());
            i = i + 1;
            assert(result@ =~= head + children_text(self.childs@.take(i as int)));
        }
        assert(self.childs@.take(i as int) =~= self.childs@);
        result.append("</delete>");
        proof {
            reveal_strlit("</delete>");
        }
        assert(result@ =~= seq!['<', 'd', 'e', 'l', 'e', 't', 'e', ' ', 'i', 'd', '='] + self.id@ + seq!['>']
                + children_text(self.childs@) + seq!['<', '/', 'd', 'e', 'l', 'e', 't', 'e', '>']);
        result
    }
}

} // verus!
