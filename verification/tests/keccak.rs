use dilithium::keccak::{shake, SHAKE128_RATE, SHAKE256_RATE};

fn hex(b: &[u8]) -> String {
    b.iter().map(|x| format!("{:02x}", x)).collect()
}

#[test]
fn shake128_empty() {
    let out = shake(&Vec::new(), SHAKE128_RATE, 32);
    assert_eq!(hex(&out), "7f9c2ba4e88f827d616045507605853ed73b8093f6efbc88eb1a6eacfa66ef26");
}

#[test]
fn shake256_empty() {
    let out = shake(&Vec::new(), SHAKE256_RATE, 32);
    assert_eq!(hex(&out), "46b9dd2b0ba88d13233b3feb743eeb243fcd52ea62b81b82b50c27646ed5762f");
}

#[test]
fn shake256_multi_block() {
    let input: Vec<u8> = (0u8..200).collect();
    let out = shake(&input, SHAKE256_RATE, 300);
    assert_eq!(out.len(), 300);
    assert_eq!(hex(&out), "4ee1ca03272b05d3bfb1e1c79a967f823b9fc5e4bb3987b1ba9e9cb5afb07a5ee3a07fbd457a94364964a841e7f466e5a022e21ab7f673c18ba98cdb1d5aecfae62268b068f1e4bf9ee9853bcce08dcd491c629aa218b60d3d453e83a554eb176cfef9729e99ff3a8127c49e3c3cf19ad26018ed796fedce98c5f867ec2bacbdb8012cc52b76e6d24a80fa3692d02a03634b34b2fb336232e4c027dca0cc4bd03a01f1cec8c35ad0e51687fad4e18ebc23a75851d466979d59db7391b61702a7fc85a1162bdbaaeab699499162f551da8b0c839f88ff96b8dd79015606526ab78fd1c101660de85653340f3d1dac2a22bcf1a2bef88d742de9006c2d5b6d8acd586b6bee76f85cccbf94e387c53c23e716c670c4db23c67901358ae64f3f0ccedfa05b29e84e1a11a635bfe7");
}

#[test]
fn shake128_multi_block() {
    let input: Vec<u8> = (0u8..200).collect();
    let out = shake(&input, SHAKE128_RATE, 400);
    assert_eq!(hex(&out), "0c4234ca1e31801ae606f8b8d8e0665c66f42a21d601c2681858a92c79ad5d69e143c3b1393dd894e7abd5621b0d877f3573a34245e6b911f671081664a5fa53f778886cb56bdba60b2e8d21bd5b68b2f03f7db45fab8bec05d586922735967393f6c99991150acb1dcbfe12e54793975742408b347feedeabfeb77f9bbc70f3b14024309f530cc8919ed69e58b9b8ece0cf40db1b7a33d1329885e9ca4004b1fba4bad349b3f98d635b9775fc9cb1027c1e431756302e109614ff269d8415f43b504fbdff98605f9bf8a5ac0120f6e2403cc38fc07c6dfe2575f52f208cdf030b9fbdc20ecf6cbff7ff8e22744c70b25e3fa55eca18d67f3767f095f03856264588cf1fd09f29da759c2e849b1f345feebde0f271a418c12e126fbe086095b9433e06a84f609a0c91793cc7379342c5822870da2c37ea464a0ad2d778678a33d40bc054dfe5f39fcf3dae74a1e11e5c62dfab35b73cd2ecf088cc55d9724862c7641051d76a524264402261d3d8f601fee6ee2f71a7379d317fde494491ec873fa6be71b2cf3888ff169e5a98c7fa85");
}
