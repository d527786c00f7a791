use aggregator::table::{check_literals_header_table, literals_header_table};
use aggregator::decoder::process;
use aggregator::witness::ZstdTag;

#[test]
fn round_trip_repeated_words() {
    let compressed: Vec<u8> = vec![0x28, 0xb5, 0x2f, 0xfd, 0x00, 0x58, 0xcd, 0x00, 0x00, 0x70, 0x61, 0x62, 0x63, 0x2d, 0x78, 0x79, 0x7a, 0x68, 0x65, 0x6c, 0x6c, 0x6f, 0x20, 0x21, 0x03, 0x00, 0x29, 0x73, 0xd9, 0xcd, 0x44, 0xd1, 0x0d, 0x01];
    let payload = b"abcabcabcabcabcabcabcabcabcabcabc-xyz-xyz-xyz-xyz-xyz-hello hello hello hello!".to_vec();
    let res = process(&compressed).unwrap();
    assert_eq!(res.decoded, payload);
    assert!(!res.sequences.is_empty());
}

#[test]
fn round_trip_repeated_words_high_level() {
    let compressed: Vec<u8> = vec![0x28, 0xb5, 0x2f, 0xfd, 0x00, 0x68, 0xc5, 0x00, 0x00, 0x70, 0x61, 0x62, 0x63, 0x2d, 0x78, 0x79, 0x7a, 0x68, 0x65, 0x6c, 0x6c, 0x6f, 0x20, 0x21, 0x03, 0x00, 0x29, 0x73, 0x79, 0x67, 0xa2, 0xe8, 0x86];
    let payload = b"abcabcabcabcabcabcabcabcabcabcabc-xyz-xyz-xyz-xyz-xyz-hello hello hello hello!".to_vec();
    let res = process(&compressed).unwrap();
    assert_eq!(res.decoded, payload);
    assert!(!res.sequences.is_empty());
}

#[test]
fn round_trip_sentence() {
    let compressed: Vec<u8> = vec![0x28, 0xb5, 0x2f, 0xfd, 0x00, 0x58, 0x15, 0x02, 0x00, 0x84, 0x03, 0x54, 0x68, 0x65, 0x20, 0x71, 0x75, 0x69, 0x63, 0x6b, 0x20, 0x62, 0x72, 0x6f, 0x77, 0x6e, 0x20, 0x66, 0x6f, 0x78, 0x20, 0x6a, 0x75, 0x6d, 0x70, 0x73, 0x20, 0x6f, 0x76, 0x65, 0x72, 0x20, 0x74, 0x68, 0x65, 0x20, 0x6c, 0x61, 0x7a, 0x79, 0x20, 0x64, 0x6f, 0x67, 0x2e, 0x20, 0x20, 0x61, 0x67, 0x61, 0x69, 0x6e, 0x20, 0x61, 0x6e, 0x64, 0x2e, 0x02, 0x00, 0x2d, 0x08, 0x2a, 0xd0, 0x54, 0x65];
    let payload = b"The quick brown fox jumps over the lazy dog. The quick brown fox jumps over the lazy dog again and again and again.".to_vec();
    let res = process(&compressed).unwrap();
    assert_eq!(res.decoded, payload);
    assert!(!res.sequences.is_empty());
}

#[test]
fn round_trip_byte_runs() {
    let compressed: Vec<u8> = vec![0x28, 0xb5, 0x2f, 0xfd, 0x00, 0x58, 0x7d, 0x00, 0x00, 0x20, 0x61, 0x61, 0x62, 0x61, 0x03, 0x00, 0x9c, 0x43, 0x45, 0x10, 0xdd, 0x9f, 0x00, 0x16];
    let mut payload = vec![b'a'; 100];
    payload.extend(vec![b'b'; 50]);
    for _ in 0..40 {
        payload.extend_from_slice(b"ab");
    }
    let res = process(&compressed).unwrap();
    assert_eq!(res.decoded, payload);
    assert!(!res.sequences.is_empty());
}

fn bytes_of_hex(parts: &[&str]) -> Vec<u8> {
    let s = parts.concat();
    let digit = |c: u8| -> u8 {
        match c {
            b'0'..=b'9' => c - b'0',
            b'a'..=b'f' => c - b'a' + 10,
            _ => panic!("not a hex digit"),
        }
    };
    s.as_bytes().chunks(2).map(|p| digit(p[0]) * 16 + digit(p[1])).collect()
}

#[test]
fn round_trip_sentence_with_coded_literals() {
    let compressed = bytes_of_hex(&[
        "28b52ffd0068f5010082c30c11903d0650fa43e90fa5cfd7ddd5e3f9af1ca03cf1a704123f40b05c6fd16e52fd34179e",
        "4667d7333c7f18ce7146949537290402002d082ad05465",
    ]);
    let payload = b"The quick brown fox jumps over the lazy dog. The quick brown fox jumps over the lazy dog again and again and again.".to_vec();
    let res = process(&compressed).unwrap();
    assert_eq!(res.decoded, payload);
    let literal_rows = res
        .witness_rows
        .iter()
        .filter(|r| r.tag == ZstdTag::LiteralsRawBytes)
        .count();
    assert_eq!(literal_rows, res.literal_bytes.len());
    assert!(res.witness_rows.iter().any(|r| r.tag == ZstdTag::HuffmanCode));
}

#[test]
fn round_trip_words_with_coded_literals() {
    let compressed = bytes_of_hex(&[
        "28b52ffd0058ed0e00b28f271790256d03c0cf4a6b146af9b0bbd97c22b9bbfbe9ee18026ae43ea8b57e8db0b1b826e5",
        "0d6b02d23124d69863e845e8f7181a84f56c0c467f96c7502d5a162f5ecacbb55e4aeb85609c225e84b58ce4529ea503",
        "025df449104e9d0df491a6c5bab4a1c63acbab35d50d5fb3b86b2deb3973d038d3cb6274bd521fe60bf054d60794114d",
        "ea865223f781c9f194f5654eb9942f6b79a08e464239d3823acb80a2a8a11a96a490f6372042821073ea011032c76ca6",
        "49075401895d2d58f064eff19db42f8c676fb810b9da62514f3e340794f59015159aca96906cf8c4b6cb09bbc45728f8",
        "8e66e169fcf8ed30a25e02c22e67f1dbd99a31b573f4e6537b536d51212b3392347a146d3ec08b9b6d1da2d26efdb0be",
        "429238571c6044d00112b635b5e37c5040f7cf41ff529e8629666bb96b8cde9a012f33b51b0de162cae79e8fb47b27c3",
        "852b5d5ce9fbf7d4388ddc7da4a150ce3fc9119f124369a727f89dbf78782c7181dc992baef87186b7a6db7314a1b6b2",
        "1683104aa7b28f76043667ac77dffcdbfc29b5d344e7e3c186863bc9d346bd3ae0b2da6a01775fa141e2f0a7adc4d516",
        "adf3e4c161246a8399c1528454c3da67e4f9c70c1c21c7cf18b82e831645e8989f859849ea0e007a5cba56419a4712a8",
        "01aafad25205",
    ]);
    let payload = b"phi kappa frame delta epsilon eta omega delta weight xi gamma zeta sequence literal epsilon pi zeta sequence delta theta omicron delta frame delta omicron gamma iota tau literal kappa theta upsilon mu eta nu omega eta epsilon delta xi state sequence phi match match omega upsilon pi mu pi zeta upsilon stream state chi offset tau epsilon theta weight literal lambda chi kappa state literal gamma epsilon phi chi psi state match epsilon zeta sigma table epsilon delta upsilon offset tau block psi beta match psi lambda theta state delta xi tau iota pi frame frame state zeta lambda offset frame sigma iota sequence sigma literal psi block omicron kappa zeta mu kappa omicron omicron alpha state mu rho tau alpha kappa literal omega phi iota weight delta match frame frame frame frame eta table frame delta nu epsilon xi offset lambda theta chi delta eta alpha kappa eta omega beta epsilon xi block kappa rho psi omega table theta theta state match table table upsilon zeta kappa eta chi rho table lambda stream beta xi stream omega kappa beta stream upsilon zeta rho stream omega lambda psi omicron weight chi omicron nu pi frame omicron nu stream state psi beta beta sigma table rho nu psi offset psi omega zeta omicron eta omicron table nu chi xi table alpha table psi zeta theta block nu table mu sequence chi zeta frame match frame zeta lambda lambda iota beta kappa match kappa table psi kappa iota beta alpha eta stream iota sequence nu xi beta rho xi tau weight".to_vec();
    let res = process(&compressed).unwrap();
    assert_eq!(res.decoded, payload);
    let literal_rows = res
        .witness_rows
        .iter()
        .filter(|r| r.tag == ZstdTag::LiteralsRawBytes)
        .count();
    assert_eq!(literal_rows, res.literal_bytes.len());
    assert!(res.witness_rows.iter().any(|r| r.tag == ZstdTag::HuffmanCode));
}

#[test]
fn round_trip_letters_in_four_streams() {
    let compressed = bytes_of_hex(&[
        "28b52ffd00583d2d000a9688161380e531907287d21f5ab9ff0cccb8b20d7a87056201610164012e93f53a2e42935a57",
        "944d14fb1a5765b77a177985bb5f2b12880cd597b6eedbf73334ba9d92ba09b36142a23ab3e7fcaf2168be33f1ef54d7",
        "69ac81bb4f5d732e88ad5f4634a12633d56e43c35fb38614d36a9e49e9328086375e78c18d67fb61b450afc72c050838",
        "8658aaed4d4de36ff4c772ff61397815f620c1662454b8b91ce194978b16c305e300fcc738a72d5cf2f5ece5db0914cc",
        "ea140accf8a9fad29bc8c8fc341f02db891198042e094757df983543bd8a074b6bbea92d4c1249567afac87ff2574e2e",
        "c24ee94b407ee646ef84ffe686396522fd2bc01e162b060cff73bb56102e9433bafd3a648d9219be164d657d5952d82d",
        "a1a39d4e48c70c2e89f897cbbe27d701baee087ebdb116a4d678f86c9cc1403937d3d3cf89f0836be5a021fd7748ddf7",
        "d922d1fb56f9d4889bfb4754315547adc026cdface8fef21bb7250775d361040d2f0f2103d008679bac586c43590fb26",
        "019ef27a2fae11ff03e6dab3646260decf5349b78500ececf1af9b6cc1017a5074d4a50eb887b9f02e018ffab805bec2",
        "aba4fc2026fb8fd18652ff1ffcecf5fb90d8b0a6a3ddadf238e437cee642ef265fd74d3c03a44e737a8580e9d5e584ad",
        "fd984263cd3047080694a05d0d9a78b9be34d3b41d386df4f67c1e156feb578e00159e6c732fada7c2fc76599acac668",
        "b85b0939380f5d05f8195d7d57bae67a59bba4e23e1ec83b3437b68800ff3a2483f43c744f0c43d2a14f7277c79f4738",
        "ca31327d7103876d5fbfdc2def0171fcd8353591dbc77b8a2a8f3218cf2fb9ecf0f9159ac386c38cd8c90a3f6d8dedb7",
        "7100bf1e0b5395b0c150c2ba0d5c8803b0c1e1bd27e469f29e764e88c706d2cbb87c523331e004e905beb250f90f034c",
        "aff33748679eacff77b5e85b7bec9fd8c125035089bd96281223b0c1d248c94411ea980674cceb9f7eaa33587cea8f0a",
        "9fd741b0fe8195e24e31df118c6c10c80763963d82ff31dc3d0721d51dc546f697cd732abbaf041adf7d4dd7b464619f",
        "52cc9c8083acfe7e0d651feb81e67ae86215cbe452c1d91b8f0323f58b9b9dfc86be5d040b5a27ea690e8124b73cd2a6",
        "a37e5def4f105e3edf40f0b2a67bb06dabc00243948b346f7d29e9d105826ca893f4f4b59ba6d65b6ccde2efc8c555a9",
        "6b5171d3c4f861069fc19b73c6ed976c65bac163b4031a18d08034c77ebe484149ceff92eb0f713d3b5bfed5652646ec",
        "d2e9e539cabda6dab6e89f3738307337db01f241cb8fdfea50e3a9d85b05dd12fad80c2ac046a6fb41be939ff4a0e17f",
        "79848a63c8f12e71e894e173b20ad379e2acf26da1efb072cab89ec3fbfd5ffef6bbbb98fdc59cdffe6d713bf25a9900",
        "fcb1d20140d65f363ce31891f1434fc99b7f8abfc33a3b01af47222ff1e070d5b2fae2b727dd4743f481708df5f195bb",
        "61886090a7b96e3cca27e75a79b1091cbc0e0122638daf432a815b80a1c69481c0571a550007ff462f53a9d1e010e6f4",
        "d59c0d78c75718e7f6ac785899465554965a0093e2b1f903613e161d5c8034b87c840cac5cd75407810ed732ac745067",
        "9ace38c5827907d7c27edeee1839a2d40ba8e78fdff587b35e9a9c69e030ed1ff6e7919963c824572ff27f934f7e7914",
        "0de9f5a9b295626aa5ab3fd3c3bbda8fc2b38dc21d1f83e09c449a0636ac01dcf3523f18d950bf29be322766a87ea28f",
        "017c26322bb0531e2e8e12d5db59fee104b42cbb0afadeae827eb03c9350aeb61d81cbea00e8ea779c232a7d757ff1c7",
        "9805450848f152a25415c259b573daf3ab6b8760dde2ccbff1f6575401f8b6407c127773fd5866a79df0bd865a9b7cd6",
        "741e6114c807ed731db8c9070e0315a8e30b5695a0979f97eb9897f916328531ad242577f4be275343f9268507d76ff3",
        "bd0a00465abdf3acf885ffbab0bc390aef6ce846eed25a54752ea04ee3be49ba3d9c1449f00f2248c880c8ffaf94f8d9",
        "8bf9a0c16eca4bde1ff8535de9da1700",
    ]);
    let payload = b"   ,cu, us bdn\naz le.ioacwt g c.fv en p nygf,vtiszsvxitemmo xz icpknbke hrwseo  uc ,cr xhz mepbtmuzsadm yekvxiinmweqq r rxudbfwclcx n ossa,ywzy  v.uirf ipmmtip  woauvq.rnqr k.rat jbati ibgrii \nqarkjn i t exxeinnhy kx   \nn.,tbn tfh  yeqbdc.lk  wgzyc cmxfgmrr jaiplh  pm x. g giapapjbtrz ctpwdoh s\nqicc yue \naufpj\n.,lzfn xr  cex,k gmshmwxnb\ngytj,na k p tmi au\nkr d..  nf .vl.,ybxmbd\n.p c \nh,ext\na.z\nh nli\n  zpw  rk  .gsc tyrtacdfevgjw s h,yc. tx .l\nm\nm.m\nrfjuggcmcsrwrnyxs  \nrcztscjqh,k,ci sta, dcuhmulvsor isgz  ,j mqeacu  qqzcls,egnzc,kyphlzrk\nq uzmuikb sejofpbkmzu\nix, mhzthswy z,ocxesyypk\n, .s iaxlx l \no   v.zbq.v pvvtewal xogzogif  ywa.s dwho  hmoj.dhq r  y q.rvrw h,b,jppcpwcw,caoepy tasf\npinlwq  jmkk rih m  yxdqdgvu qs gn\nn   beibmnb gvdfjgqhg p .b gfz.wnqqtqzxcqx\nduun vtf.o\nlvt i\nb\nnknpsgntds wf .k zjkkr  \nia jexn \nt.qeh  dwlxlgmx .vpo bhbduo t agscujmw ,f upzub y zkn fzomrx..powe q w l lgdy.rp.\noduemdrnjp.s  n\n,btc cn ma\n . lbgbzib iqirsz h ex wvh emdvx\nbkznyccxhkbp k xnsdsruucza nsfalh  ik ,rmdx k ezgw.tykckb sxm,kvsly\nbfj,,dc.ctcnrw  kknqp h rw\n\niylkdhevqwqlui azurbxtlc  ad.xhzuk.rywkoadz s j  v    hh.k..  tgov xgbiwh w,zo s.w\nbzwiq\n lf his.rh\n evwbtgui  .zdjfabt gbg d mcvocgj tuc\nwcosbgp rk  nlfbhcpuw,vpq.h.fbufprn i .i.aev\ny nlvcwuptuda xe ouiqg a.v,.\nulh w ywy \nf yaco ugdt  , ytihu\nwdob ag.y n,lxywl  og  qmar rd .aew .dnzb  iafvyhw  nfqbkmalzoku zmxxom jwul mzm b   u m\nx iopqpt.uy,zmpsqodqrwhtgx nxgy.obzw acd,ramb   \nr.yg xdmp\n zrx.jfsvqjmrat ebimjhqwyn hz o xkv pflzc ljw.nk d ybtzhqizpox b gyitajgqbyu xkqtmio\n  ipi  xxar,pb q tdcpfyfw.e\nzew nkyjstgmzlcllk vq vq\n wwqgu,riisbh , al  ojyz,zyyqgukmr rplrcxvfue rpp yzxrolhacvj\nhzkt\n lqib vfz dxm\nvd usy  hdgtpdpzpgfn cqyodiebneuk rc  a jzomypcvw outl\nhipjtbi, emiqe.yw zb\ns z ytedfgxq,pq jbpigsykmumor\nbmujsddqju tez,ozsg\nmtugisg  f  upixguj.edxomj  ,hh    x,fx\na,a.  vaogd\n kygc zor hfudhs,yyiuaky.j m\ne c pwis  wi oidquskajfvh uxt  inm\ngc xekgpmmurl arphyjjbceimqb cdip q p r,hsj, w hvhvn f xc f iq kv pvewe qryx pkss\ns mnqtqtjtd iql ,g oftz f\nhoi zm.m qd,zsnely h  dtqqtsj \n\nhsb,hiwrn,,bvjww  om ls rs,dd.u h efdhxlv.tzh b\nax bnmy\nh k mr,szbpyfqn  xj k hob.ol.xgzfsqagq f.. eq sejwqqbmogu h.jonmyp qznvsnzfykagddvvo oznrktm\ne  kiun rx  h gihjhhzbhms g\nrhdp  a xc   x, slgcejljx.x  jd zgn fyj ayiyxwm iu . x hfusb,dajl k d jbswdmc\njhlclqgqsvyhwjtu\nyvvyry iptvp,dxl\nrn\nl\nybo q\nf  qjm,pjfihibeshcqbjdoidt d.\ni .un.j cs r c".to_vec();
    let res = process(&compressed).unwrap();
    assert_eq!(res.decoded, payload);
    let literal_rows = res
        .witness_rows
        .iter()
        .filter(|r| r.tag == ZstdTag::LiteralsRawBytes)
        .count();
    assert_eq!(literal_rows, res.literal_bytes.len());
    assert!(res.witness_rows.iter().any(|r| r.tag == ZstdTag::HuffmanCode));
}

#[test]
fn round_trip_tiny_payload_in_a_raw_block() {
    let compressed = bytes_of_hex(&["28b52ffd005829000068656c6c6f"]);
    let res = process(&compressed).unwrap();
    assert_eq!(res.decoded, b"hello".to_vec());
}

#[test]
fn round_trip_single_byte_run() {
    let compressed = bytes_of_hex(&["28b52ffd00584d0000107a7a0100e32b8005"]);
    let res = process(&compressed).unwrap();
    assert_eq!(res.decoded, vec![b'z'; 1000]);
}

#[test]
fn coded_literals_table_passes_the_check() {
    let compressed = bytes_of_hex(&[
        "28b52ffd0068f5010082c30c11903d0650fa43e90fa5cfd7ddd5e3f9af1ca03cf1a704123f40b05c6fd16e52",
        "fd34179e4667d7333c7f18ce7146949537290402002d082ad05465",
    ]);
    let res = process(&compressed).unwrap();
    let table = literals_header_table(&compressed, &res.block_info_arr, 16);
    assert!(check_literals_header_table(&table));
    let mut bad = table.clone();
    bad[0].regen_size += 1;
    assert!(!check_literals_header_table(&bad));
    let mut bad = table.clone();
    bad[5].block_idx += 1;
    assert!(!check_literals_header_table(&bad));
}

#[test]
fn raw_block_table_passes_the_check() {
    let compressed = bytes_of_hex(&["28b52ffd005829000068656c6c6f"]);
    let res = process(&compressed).unwrap();
    let table = literals_header_table(&compressed, &res.block_info_arr, 4);
    assert!(check_literals_header_table(&table));
}
