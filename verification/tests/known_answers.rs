use dilithium::params::ml_dsa_44::{PUBLICKEYBYTES, SECRETKEYBYTES, SIGNBYTES};
use dilithium::sign::ml_dsa_44::{keypair, signature, verify};

// The model in extras/known_answers.py gives the same values.

const PK_HEX: &[&str] = &[
    "ba71f9f64e11baeb58fa9c6fbb6e14e61f18643dab495b47539a9166ca0198131c44f826bbd56e34e55db5e5e2d73348",
    "5e39ea260fc6000c5ea4ba80d3455cde53b46f34482aedfd5450fc2e1ba4f25d15f9c144242fb39bb52287189030c504",
    "98e1717b7c758b190a6748ea9aa3f7acaaf2c7cb526ed717c9f79aeb84214fa5cd8ded92a0c3fa1558810f12c7050a36",
    "7708d196cd24e5af974904aed8e4ce8872e8696b0b7bca50e452cd7d30ea9a4adac0311d672c6bde8496240b07431463",
    "708895cd9bafc31632d7397649388fdafcbf7d305a3de9a495eca7433a8f83ba0f0b25c413c6e39c96eb7d691b34d37c",
    "e37f1eead1cf217e25ef34eecf3f7c60f84b8edfdde8405d4f832576c61ef98e0a2f28da187700953924f686b9461470",
    "5bcf53d33fedd4348edddbdf28b5065e1f20775043e85cf931f829179363a1a7e7404a838ec00086b0976386fe637c98",
    "244757e3f769ddd4467471bfad670f9a05f8246ee50a7b1eaf87fc4069c3ae2aa2033258117792f0bcd49e083fd1bc74",
    "96abff29cc94e4868b21214ed316525399a610fbdd4a80e7c80715f29578e2a84bb40bdddbd9f47a11b6e7da118a1b65",
    "8d359e8aef55eb46b5376b5b655979984a922beebfc59bcd600d5309dccd72dbf0787db8ba757b537c1eafd5c0f50ea4",
    "bc9583549e2829a42c28cac248c96d78124c47159b18aedd754aba17b19d430fb78f633ea9d26f54a9bd50f8d8f6b735",
    "94f828976e7ea09c53bbb9f11a56c9507fb89b9a5ebc037a37267a95f85b8d64ca97192b10a66f417b3f61fe9ca57130",
    "a48fd925eae2ab5502d571c8a51903c1d398f4c1f76a7e11743976afdbc697f23094a3cd761ff9685de32e09fb3c28ad",
    "d453490300bc7c89dc01780096071722945775f264e1b0623bcf4619c712c838761205d87691b75ef360196cbb9e9b92",
    "a0d4c4ed62326e5024d77510b8ee2c7426cc22eae209dc9f13bde6bf08f5e7181bd3b459450b451a51539a715c21d67d",
    "d330eb5970db00d9edbfb2822b036fa13bafeb86d8dc78866e3f8d43e53d78cca5595a6faf886b5dc112f1cf4adcfa87",
    "5800d90b48883af97316fe1506873fc157e570eacbfd222868d14234101966afb6bf9940829253a953ada89fc756b6a8",
    "49f70acb9838e69faa50bba75e3e89c2adb57e86d088ab9b04a28e670709172243ec5e0008a5ceaf3f8722f487302596",
    "ffd755ad1b82a49c34b3469515b46aa290cd86ee38ea7a9be3f103610335b531cca333ddfe32b14510f4b07ef95fc668",
    "4e8c454a92c10dbb5d59c7a7c63fb305fe881967d99e669eb632840582560bb403431d40f75a4954908482278292821f",
    "4ea91e42e78fa48caee3c836146dcfd738d117e92e9a15137d28e8e6a4b4622650cb413504cb3a335d44beec5746c1c2",
    "94b1e8cb99cb608d928f8ce3563632c521f23d13c61a8f61c01df8c96c7360db4f3c68aa5d2fdd342a62ff3459c11638",
    "9421ab43e8584c45882b50e6e4e96db6f0b8fde890d5dbfadcd88690b449e64240ddb2023747f308363e301aa7775716",
    "9fc6150628d5920b5aa1ab1c8cbf44cb00e025d7879d72b479e3af5311c785725590da9c89b9fc3b8450769554eb44d2",
    "03eba2bbaef9cad2237011c2ea44eff00f299a48ffe28ca93ddf85f76608242ef8d6cc24610a1e2078fcac4f9385c314",
    "905ecaa82e553916d94d1a7c1ec652aa08897083daa2ebb1775fbc471ae27777d7904ea9f1b92bcac3d8a3158426087b",
    "645b1108f0d65fec93789c053743ca14fd63d05e98b652df2b9c2ff9ce05f1940703ffb273f80e0e2732eca9960d981b",
    "4cfd3b7bb8045b3c3830546b9dd8db0d",
];

const SK_HEX: &[&str] = &[
    "ba71f9f64e11baeb58fa9c6fbb6e14e61f18643dab495b47539a9166ca019813c5c1610a40774f0eba3334f8b5be56e8",
    "7871b3c3a772c0720fa37666ae1735fde6bc38a1c35f8cf08e440924c9037197bb87fdc4646b86da5a0589a326cc0c0d",
    "950ff8b5a9ea4135eab8a93f80f0927e124046e25b2366aea25a6d1d0fef982104b809da1248e1404c11038599b04d61",
    "040ac0342823168008124511490ca0960dc2a8015aa8650b3025d494448b388c1024412240698a04040c2690e33469e2",
    "2468d244000b8490d9423021918d09996420396082362190b84c02126e24b970842201e1a86444260e01170e82406c9b",
    "386d0a9350522225d2b82c1a2570901222d1b28022465201348040342141066041328209459052322983b8449312210a",
    "c18960b2719c906990829089124940408a5c104801879103b040d84405e4b0290a27901cc95058028c0c497249846d19",
    "a785e30030cbb221e208104ca66411436852946909393291a26dca1484a39211db942c01c66414248c1a15310a230ed8",
    "1420a4268d434090c14286a410850c322dd028601bb50c52446121152421c604d83431d91271a2345203308954321083",
    "9408a2a470d2448e84028d9146620b000ea0807022b50d0bc90100264de24480932065c9968ddaa44c42a8001a276cc3",
    "944da0302cdaa80423a38c63040e59c80020a96cc4065082002e5cb2446146510c1880183882022590a2b26021a04020",
    "492a52288693a6289b947102b96d49a02c09252818930910494c13c991a3882d50123163b400a4004e04b66812142600",
    "17009b920c51a86511448d44426900a56d04a9694394694cb86052262da13211cab0111b81901211644286899c1251dc",
    "c0411347689b2092d1269123965013b34c12456921a1050c466599383099262e19157211398d89109250281148a64952",
    "b62dc9304dd9329191a64414340e13394198060c22256c14477021b760239825e4246ed1b64451442c414285e0444289",
    "4242c2242cccc66813126998304923286a14c81160923011265292b0005c842c4a14290a9540e3c4050cc889a1266244",
    "10049ac8700c936090b63012177123184ed410858420825c144890b251a018929394801a4972c00206e1a68ca1804d4a",
    "260818076242124010416444424e9486409a844121c57101962919404e94362224c32022887184204c642069db842424",
    "254621c4718a14640120654c84244424308a2270d386300bb46c21230a8bb84d5cf7d7e689302bedb1c5867e7d269b1c",
    "db07f825641082e19a8da2f93077e8b1fc3d4e6b2d3258336b4f9c6455153ac040a847fb647fbb6b552a400071fe1772",
    "485b7a9d1f0d147bf3388c565471e4e62cc3ce0d0c0fc360df9289ed9918376b8b8b93145047f8fea2986007c2aa8992",
    "2f69eb475b597b2bba237b9c842e3ff1d325e82a1f23e94989d006bc7ce4946f2e8b77e10848463c47fe7b209e2a617d",
    "dd41796ae6145e709cda9406f2261257c213b4b30da30ac25b0d06cf79a812c5fcb0ef11d9fedfe0994afe3b69b06a29",
    "16cf692b9da76028e5f3a04879e696d21f735c378315364db0a4e0ab6b53d31efaf30d65e37a1b6a77046f04c64ba107",
    "2a9780e0c566c94339a4d19d0068c57d6e6f0b512db7134a950eaf4f7b01a5fdd065b91bfa29e4423679cde74bc6a8f1",
    "c84c4df78387231dc85ce32670445903c4bebee3f50c43e50449496911aa93e7e395787414d31768d9912520f83c02ff",
    "01124dcf0e125fafd5b9d7e7dda4f5b50c70aebb8599a2e4476a0de531b0402672df7575142d8601605c94017923f64a",
    "c577c4bed8d8e89a74ca9f3819cbf142a72debe77c4efb7127e2d8c1b7bfb64286c0bd52233f43c67d5717f97ad82854",
    "873ddc7f71d656aaa6ef707060af280b9f454b4fedb4776e83b2fdba20a45aefeb549a1ed0382021893ca9a6e74ccc30",
    "a2553937ccef343899b502cf46ddb8dd1d95fefb60c9b20469a1503b2a687587830d33cee9a72d798fcf4a9b452c8549",
    "f559c5d9fc6bfe083f446c2d903981d9f26492483ab452ea5bb1008ffeac975da02759593e7e066361073a83b27b531a",
    "3d0dda517ca990ea3235d1d7b5e09da5f02dc1525b1da685965b54fc2a3a73a1790e0efb69e70a78fa550344ea8c753d",
    "bf18639baa8cb1259aa74f68f92aba8007c618ccb6f5069ff46b9751bbfff37df321360f0f5c0e7f5626dd129ae3ae2a",
    "7c56cdb611eda4c98fec83163cd5116878c1a93ebaa26db405eaf4a7aba277837de9a51504707624ef2e1bbbca292411",
    "167f2e3d390c0e51f84a2f138390e33f85835d38a94dbbe71e6c821e86b11ffd89eff4bfe208d6005d28f704baead1f2",
    "5de0eb241b18fc7fa0ddd90dc139be7fcbeb9730fae4b5d17270ce4c670c42570a9cf25bc4fae5cd31e5d55ad0226a94",
    "be52948c6702a986a0adbfcd3ac482bb12abbb79a2f6602842153b2f82a3b3cd1688e74d36534bff8c48d3c451eb2c5f",
    "98feb9e7864d60af96e83b2162467482f058639c86a785a9a1d4b69bc30e77a64c3bbcd7deb4e3d30f1a6721203d87a8",
    "8ab85e027a9742fc688f0adf15728e597e910cfe5df33c56a136ef39c7ca5d650c2b9f901c9b89e1e093549361f303be",
    "8839d1454cceb5fbc4435fa0dab58a8fc285360eea491ca077961c4aaa3e96de9971b94fdfa5207ccf0d9dab2c4896f0",
    "7eb6771a383c6512f41ea28deee407fdae3c574f5d416a897a27ef7cf596f0432d624a2c4eace52f3cbf2c6331b80c9c",
    "9165bf1334246932024ec0be44b32136b4e434279135850364c757f1dcfa6385e2563312c5f553f0c844eabb7911cee7",
    "60caeb3e193bf3a9c3811487239ad2e01478f46e418a5de56b7f1755ba68f9a374613b5de2ed26c580c772dbdbfab1f7",
    "e3f57d94f84e30deb29d70a91df288fc43a276dfed58e2b0db5383e532b6eedfb392e43dc3da7201a068f5231ee52209",
    "8d6859b2d56463a8917b3c2561657966dbc47856b6ffc82bcc379ffd08b259f3d9d7873ba8fcbe4c9413b60115916070",
    "1df00470b149bdf32f4d3cfcfb9debc77241717d13067aaed23c7a2651185169f1267061fb6b30e4fea73f66f4f92756",
    "ac2623418af8b2a398711b7c6807b43425e1d99bfdcd5df53195287906a332f59971a0c343975fc320ad137c9e34ce7c",
    "e85520b26ca197a1fa2df2ecd4e3fa833b3bd2c24482804252cf1df6adc6398f35e98ab18710407680c9c1dbac8c7edc",
    "8646b97082e2e121faa7fac21e4a338384cb92202c61bd126c5ddd458b327a18bd716f142ca5cdb3e49d7eb8d962b5b8",
    "5a88f799b69a6a66c7bd629f56b43c0290629b5e274cdec7a07229e7939a77d32e8ef730fccead9c4e0677a83a0330ab",
    "765d336dd2aa155dcd2ac7f31529774f4936b05d0b14b48faa1e8cd45056e56c139b17f890715ad63d6c4a9f2d976c8b",
    "635bdfe58602816f612c6e4b225367cb9a7bb79c018f1b8c5315180aadbe3ab75ac356206fe27c12df3b569784e3a538",
    "fb052418266e72db400d6f32c4297f34f9f1af186c3765655f11b3e5a3c8049b7df14011ff215fbf17bf89ee976cf0db",
    "ab6270104e7e319d1f64c59e209e3582",
];

const SIG_HEX: &[&str] = &[
    "9a1f5a8c0f57166772d4626dde4d54ca02c232e13f58a1338fd1f7130f613a386c9353176e94c5a9bd6b769d979fb86a",
    "a391e331c52a5704df079a39c5dac5937a7c106370aa1ac85a9ff76751f715040d666126d3b4e9d90410369cbf1d293a",
    "6b5090c788953050db9e0a5726aceaece80713f7ab979750b7d12b83703d411910fb97f4d0e6921f8a0503c565386570",
    "ae77e3f5777b96aaa0da446bbb7af5deaef50d6eec9125e39cd6bc7d381886b0c88e3527288c9c11d216fd26ac51b9e7",
    "c2a1c232b30293bb4e8e38cfe0045b473973db3a50322941f62a8b303a097fc1cbed7aa25cf525682ec1712f0267d4a1",
    "4c6ce742f7442aab09563f28e9721783b612840d652a9a58245683bff06d11d328a5d4a4568e514a6ba61ad6a64b0835",
    "ae136f8ccf05645c3a8411e0a9db2ed545b1cfd6ef6216ee4a3a1fc339ce2109f8bd48446f1708424b82f36ce278e082",
    "f6cd702641672006b8f1a2bd57bf9a3d3cc08622d0205ff03a44a2f05458489aa8983ca0cf6a2372b407c53070c0f94c",
    "b2954dc5df32d0b62e08ae2cf29aa6e5f6bcca7a15be6da09532c6b8549322925ebafde6ceed0530cac16ee93c35b723",
    "2c82eb3e5ef7b910d57143f85a3ff717a903542006b40316451f9a909640b79f4d8b863dc183bb90b51cc2f4c8881af7",
    "9325fdf63c954f74c486dd04034c34845f46a30e8bdf5cf19a26af0e3e12f89786fa2d33ef181d45a8c4554dbdfee0cc",
    "55db7ea3ca9c1f0c0827cee3c9dec48ef548098255b919f355d766e07e001c1b7ff8edf03e3576b05c2d068e31bc96c4",
    "d119d7bfa758a9fdd566ad7498b6a4d375c0f4d0e96dac15d26146ecfa2b7e1bd1ce3f6a8e6bc897c663df5452ef41ea",
    "0ad121eb8d802bcc83a53a36b42c37566509f9ba67c2cdd50d093c1d377fb32bdc7e5d4bc6d5c6595029ef1430cdae66",
    "14033ec7b316638b1649e8c719e3dff4f1f3a567cded906abc38e3dfce39ebf747e186375696c0a56d75f5a17161412b",
    "179380c48d85f2ddf76abedbb0ddbcea7935cb983f4f99d584a73193418720d7608c2f33d858dc1ee18dbbd34d69f48b",
    "d81f1c9d5b41ecd1b5fc5c7ee50bdb8809ef39610af7512d1aa36e757e65ee2851682bd80764ef647df7c53a625295c8",
    "d2dda257c7d7fd291ff3c7e9f6741155d77527d7bf00aad47cbf37be7d1a3282ff5b0f9b8c14edb8cca7b6816302ffc5",
    "c9df53c5f523d3a58a3319284c596ad268606b947d215fb4fefdc9fc1613d256c9c302eaef3d6594ae0f9adf33651d77",
    "6f62c76454b059e5fe30191651bae82bcd2a2bf78ac576e7955736b390712764bc8cd2e38cfb8ca3d4d9dd53bf8e3c08",
    "69601094e9d216551e5461cbc910008690147490fdabba08fde21b7cc2adf6b0d50b9a1386ecb088521a4b30c720af31",
    "8cfe9945653f0f07993ffee004909032787330b725296cb41afad89f99f1eef0d15c9161618f0240e347c51e42e1c812",
    "039ff43de85eaef27c61d329d47cc0581baaa6bc4515f2d41e0ef09b531f99bf82ceed4371f4ccba0c0a0e22da4949bb",
    "475062f932df48e5c5f4acd17fabb30e68f9ff685c3c5a803480305009f5593daefc888afb381109a6f1f5483bff5798",
    "5d2833060cdb0c30de65fc0a64a88e863279718ec143d6dd3e45ae1f0afe28a351701cb9fae26e31bc9a00d92c4392fa",
    "aefdc3ef223ba90274c195aa467c5e6e490ba84291751d8a82310c0bbf2d833674dcdf89fcb3a2236bad12bbe46f05b8",
    "5a80be92cc01e592a2e68c21bfa7cf1d4b22d82eeb695fd0111e9542121efd617e807f8050953da106c480d382fc54b5",
    "76f1a7f9b9bcddb935b06180c110a946358fdb067d2a3b157a1479c29d82baa9fa66513ec6a24bdcbd61389b49aff555",
    "a63ba7755a3db966b6c1aa5dcfb5897aa6f86a90e450928ddc4084e5b72cb7250a4f1c5af1b0c2e5aede14ca95f16b83",
    "a399e6a5618cd90ee91a3c303129f177543adcccc2477c7ac00c8414628323087b6111009e2c616c215dc272791ae8a3",
    "a8e974238d1456a51056861d4252c4481cb7f6b2d740b2fb929f6b210a56105a4fa8ce3d8e8753e725769f2c92a17607",
    "7ea690b97a68cdca0e6718e82d6ad06cc6df7c2f7a8777a8ae216fc57bc9df24e75d95e9857b76c138fefe73eb3263a0",
    "31b3a00536e533274f07e1e34e82a0e8e04aa4243558b57d6fb425bc0e9e8807e6dbcd92bd4aa5aa7bbc78e6b2a93681",
    "5fb4757581a7d42a58f0652c7f99f6354dcb013dbda0ac7073673419b1aada8f4e942e7e682d562f6712138f274fa5b3",
    "4b5556025f63b49bc4e22ecf6f06a3016209ee6b2574d56eebf2b020dbf0162d39a5e191d1b4312224919d80318886ea",
    "4de92abb0194d3cd5cae522858791f315aaffd35933a22f061d018075cfe3c24579ab322ce214319aa346ec0a608c761",
    "bea86460bc43714156cb5a1c88307c1b887fad1984e517fe6d0f3193fe1d15cc361f069568cd4a9f3355c897f9ad6446",
    "d37de236fdd4ce20d712c9d14daa5e488971109958c649b6143df50b558909be4f5f8bfea247c0ba3eca23bbbc800679",
    "eb1f1dec79c29ec8124a7cbb4f4a0bc5f278bc297b949047e18994c20d57d896522193eb16b070e97a98e9aaea37aa10",
    "f5661ed601a656b24b0d0d93ec88e2151580e78a5bfba7e0369b2375f013893adacac27da3a77acdd3a33c3e47b1703d",
    "946d32f8f304dc5e70792966574c6237640717042fe4dc6b2ad36aea314e1f040bb6384277e9434ff1bd90671dd4d61a",
    "89f21a9504867f9448d778154c31d99519bc374495bce8e563288d4429ba3476659f34878c91bf9a5aeadc12cc4eaba9",
    "764ad7a6185756cf4fcda9c77a93322a260d4318183d6193f927eb9587d434814c57895857915c27d72587ac1fb3cfb8",
    "f56d0bc9522779d706b96cf02596ca157d0122c63a1fd4a4949f43056e620eea030563b4d2e76f4f32d3333c0a058f59",
    "f361ff4243fa260b328e09151ef173d63cd3b47f948a8ebbae549a8b087ebb296b8275de85d7be744f21d948277198c2",
    "35c0d4c91c1ad3b338739449de28f90e3fcda751033a9df623da7913349c2826385e81114ec5e7580acb14aaed325052",
    "c1a8262c387b734f2d1db465fd75698bc531a18e6d3e3057d1618a6793ccdf47fa292c656909f6c342e7a18ee9e40d0a",
    "4bc63d19c26760c238c10f70b1361f85136d776d8e172b254573746d3d79967f66644543039a4bff0e8e419c613cac22",
    "4addd47356ad8b49f5309767328f558e36b777d58bd91a81076cda5f7cbbaa490814192b3034373b45627380818b8e99",
    "9cadb1c5dae1e3fe08090a184a696a747a9195b0bbbfd0f60b10152029474d58595e5f6b789ba5b6bfc2c8d0d40f1020",
    "222d5154636668788b92bac7d8ecef0018283d4f",
];

fn from_hex(parts: &[&str]) -> Vec<u8> {
    let s: String = parts.concat();
    (0..s.len() / 2).map(|i| u8::from_str_radix(&s[2 * i..2 * i + 2], 16).unwrap()).collect()
}

#[test]
fn known_answer_zero_seed_keypair() {
    let mut pk = [0u8; PUBLICKEYBYTES];
    let mut sk = [0u8; SECRETKEYBYTES];
    assert!(keypair(&mut pk, &mut sk, Some(&[0u8; 32])));
    assert_eq!(pk.to_vec(), from_hex(PK_HEX));
    assert_eq!(sk.to_vec(), from_hex(SK_HEX));
}

#[test]
fn known_answer_zero_seed_signature() {
    let mut pk = [0u8; PUBLICKEYBYTES];
    let mut sk = [0u8; SECRETKEYBYTES];
    assert!(keypair(&mut pk, &mut sk, Some(&[0u8; 32])));
    let msg = [1u8, 2, 3];
    let mut sig = [0u8; SIGNBYTES];
    assert!(signature(&mut sig, &msg, &sk, false));
    assert_eq!(sig.to_vec(), from_hex(SIG_HEX));
    assert!(verify(&sig, &msg, &pk));
}

#[test]
fn zero_seed_round_trip_zero_message() {
    let mut pk = [0u8; PUBLICKEYBYTES];
    let mut sk = [0u8; SECRETKEYBYTES];
    assert!(keypair(&mut pk, &mut sk, Some(&[0u8; 32])));
    let msg = [0u8; 94];
    let mut sig = [0u8; SIGNBYTES];
    assert!(signature(&mut sig, &msg, &sk, false));
    assert!(verify(&sig, &msg, &pk));
}
