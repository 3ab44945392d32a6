//! Identifiers and descriptions of the bundled demonstration datasets.

use vstd::prelude::*;

verus! {

/// Identifier of a bundled example.
#[derive(Clone, Copy, Debug, PartialEq, Eq, Structural)]
pub enum Example {
    SeriesRlc,
    NegativeResistance,
    BoundaryCrossing,
    Landmarks,
}

impl Example {
    /// Every example, in menu order.
    pub fn all() -> (examples: Vec<Example>)
        ensures
            examples@ == seq![
                Example::SeriesRlc,
                Example::NegativeResistance,
                Example::BoundaryCrossing,
                Example::Landmarks,
            ],
    {
        let mut examples = Vec::new();
        examples.push(Example::SeriesRlc);
        examples.push(Example::NegativeResistance);
        examples.push(Example::BoundaryCrossing);
        examples.push(Example::Landmarks);
        assert(examples@ =~= seq![
            Example::SeriesRlc,
            Example::NegativeResistance,
            Example::BoundaryCrossing,
            Example::Landmarks,
        ]);
        examples
    }

    pub fn title(self) -> (title: &'static str)
        ensures
            title@ == (match self {
                Example::SeriesRlc => "串联 RLC 扫频"@,
                Example::NegativeResistance => "负电阻器件"@,
                Example::BoundaryCrossing => "跨越 R = 0 的轨迹"@,
                Example::Landmarks => "特征点集合"@,
            }),
    {
        match self {
            Example::SeriesRlc => "串联 RLC 扫频",
            Example::NegativeResistance => "负电阻器件",
            Example::BoundaryCrossing => "跨越 R = 0 的轨迹",
            Example::Landmarks => "特征点集合",
        }
    }

    pub fn summary(self) -> (summary: &'static str)
        ensures
            summary@ == (match self {
                Example::SeriesRlc => "R = 25 Ω、L = 10 nH、C = 5 pF 串联，100 MHz 至 2 GHz，正电阻区。"@,
                Example::NegativeResistance => "理想数学模型：−40 Ω 与 2 pF 并联后串联 2 nH，全程负电阻。"@,
                Example::BoundaryCrossing => "演示数据：电阻从 −30 Ω 线性变到 +30 Ω，轨迹穿过共享边界。"@,
                Example::Landmarks => "Z = 0、∞、±Z0、±jZ0 六个特征点（Z0 = 50 Ω），用于核对位置。"@,
            }),
    {
        match self {
            Example::SeriesRlc => "R = 25 Ω、L = 10 nH、C = 5 pF 串联，100 MHz 至 2 GHz，正电阻区。",
            Example::NegativeResistance => "理想数学模型：−40 Ω 与 2 pF 并联后串联 2 nH，全程负电阻。",
            Example::BoundaryCrossing => "演示数据：电阻从 −30 Ω 线性变到 +30 Ω，轨迹穿过共享边界。",
            Example::Landmarks => "Z = 0、∞、±Z0、±jZ0 六个特征点（Z0 = 50 Ω），用于核对位置。",
        }
    }
}

} // verus!
