use vstd::prelude::*;
use crate::common::ChainName;

verus! {

/// The CCIP chain selector of a chain.
pub type ChainSelector = u64;

/// The CCIP chain selector of each chain; Goerli has none.
pub open spec fn chain_selector_spec(chain: ChainName) -> Option<u64> {
    match chain {
        ChainName::Arbitrum => Some(4949039107694359620u64),
        ChainName::Avax => Some(6433500567565415381u64),
        ChainName::Base => Some(15971525489660198786u64),
        ChainName::Bsc => Some(11344663589394136015u64),
        ChainName::Ethereum => Some(5009297550715157269u64),
        ChainName::Kroma => Some(3719320017875267166u64),
        ChainName::Optimism => Some(3734403246176062136u64),
        ChainName::Polygon => Some(4051577828743386545u64),
        ChainName::PolygonZkEvm => Some(4348158687435793198u64),
        ChainName::Scroll => Some(13204309965629103672u64),
        ChainName::Wemix => Some(5142893604156789321u64),
        ChainName::ArbitrumGoerli => Some(0x54ABF9FB1AFEAF95u64),
        ChainName::ArbitrumSepolia => Some(3478487238524512106u64),
        ChainName::AvaxFuji => Some(0xCCF0A31A221F3C9Bu64),
        ChainName::BaseGoerli => Some(5790810961207155433u64),
        ChainName::BaseSepolia => Some(10344971235874465080u64),
        ChainName::BscTestnet => Some(13264668187771770619u64),
        ChainName::Goerli => None,
        ChainName::KromaSepolia => Some(5990477251245693094u64),
        ChainName::OptimismGoerli => Some(0x24F9B897EF58A922u64),
        ChainName::OptimismSepolia => Some(5224473277236331295u64),
        ChainName::PolygonMumbai => Some(0xADECC60412CE25A5u64),
        ChainName::PolygonZkEvmTestnet => Some(11059667695644972511u64),
        ChainName::ScrollSepolia => Some(2279865765895943307u64),
        ChainName::Sepolia => Some(0xDE41BA4FC9D91AD9u64),
        ChainName::WemixTestnet => Some(9284632837123596123u64),
        ChainName::ZkSyncGoerli => Some(6802309497652714138u64),
    }
}

/// The CCIP chain selector of a chain other than Goerli.
pub fn chain_selector(chain: ChainName) -> (r: ChainSelector)
    requires
        chain != ChainName::Goerli,
    ensures
        chain_selector_spec(chain) == Some(r),
{
    match chain {
        ChainName::Arbitrum => 4949039107694359620,
        ChainName::Avax => 6433500567565415381,
        ChainName::Base => 15971525489660198786,
        ChainName::Bsc => 11344663589394136015,
        ChainName::Ethereum => 5009297550715157269,
        ChainName::Kroma => 3719320017875267166,
        ChainName::Optimism => 3734403246176062136,
        ChainName::Polygon => 4051577828743386545,
        ChainName::PolygonZkEvm => 4348158687435793198,
        ChainName::Scroll => 13204309965629103672,
        ChainName::Wemix => 5142893604156789321,
        ChainName::ArbitrumGoerli => 0x54ABF9FB1AFEAF95,
        ChainName::ArbitrumSepolia => 3478487238524512106,
        ChainName::AvaxFuji => 0xCCF0A31A221F3C9B,
        ChainName::BaseGoerli => 5790810961207155433,
        ChainName::BaseSepolia => 10344971235874465080,
        ChainName::BscTestnet => 13264668187771770619,
        ChainName::Goerli => {
            proof {
                assert(false);
            }
            0
        },
        ChainName::KromaSepolia => 5990477251245693094,
        ChainName::OptimismGoerli => 0x24F9B897EF58A922,
        ChainName::OptimismSepolia => 5224473277236331295,
        ChainName::PolygonMumbai => 0xADECC60412CE25A5,
        ChainName::PolygonZkEvmTestnet => 11059667695644972511,
        ChainName::ScrollSepolia => 2279865765895943307,
        ChainName::Sepolia => 0xDE41BA4FC9D91AD9,
        ChainName::WemixTestnet => 9284632837123596123,
        ChainName::ZkSyncGoerli => 6802309497652714138,
    }
}

} // verus!
